# neqo_http3

The parts of an HTTP/3 client that decide by values alone, verified with Verus.

- `src/client_events.rs` holds the queue of events that a client hears of. Newer events make
  older ones obsolete: a reset drops what the stream had received, a canceled push what was
  known of it, a closing connection everything.
- `src/stream_type_reader.rs` reads from a stream that the peer has opened what the stream is
  for: a control or QPACK stream, a push, a request, a WebTransport stream of some session.
- `src/varint.rs` reads the variable-length integers of QUIC as their bytes arrive.
- `src/transport.rs` says what a connection is: it answers requests for bytes of a stream, and
  all requests and answers can be spoken of. `src/stream_buffer.rs` is a connection whose bytes
  are in memory, `src/recorded.rs` makes one of any transport.
- `src/event_laws.rs`, `src/piece_laws.rs`, `src/call_laws.rs`, `src/history_laws.rs` and
  `src/buffer_laws.rs` prove what holds across operations and calls.

The library does no I/O, and every item of it is proved: it adds no assumption of its own to
those of Verus and its standard library. `app/` reads from a running connection, and shares one
event queue between all parts of a client.
