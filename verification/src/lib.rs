//! Two parts of an HTTP/3 client: the queue of events that the client hears of, and the reader
//! that finds out what a stream opened by the peer is for.
//!
//! The queue is [`client_events::Http3ClientEvents`]; what its operations leave behind and what
//! they drop is stated over the sequence of events that it holds. `queue_laws` says of every
//! operation what becomes of every event, and `event_laws` what follows for the sequence.
//!
//! The reader is [`stream_type_reader::NewStreamTypeReader`]. It asks a
//! [`transport::Connection`] for bytes, and its contracts speak of all that the connection was
//! asked for and of what it answered: `reader_state` says what each answer leads to, and
//! `piece_laws`, `call_laws` and `history_laws` what follows for many of them. The integers that
//! it reads are those of `varint`.
//!
//! There are two connections: [`stream_buffer::StreamBuffer`] holds the bytes of one stream, and
//! `buffer_laws` says what the reader makes of them; [`recorded::Recorded`] turns any transport
//! into a connection.
//!
//! `wire_laws` says what is reported for which bytes on the wire, `connection_laws` that nothing
//! but the bytes and the end of the stream counts, on whatever connection, and `step_laws` what
//! the single steps of a reader do.
pub mod buffer_laws;
pub mod call_laws;
pub mod client_events;
pub mod client_state;
pub mod connection_laws;
pub mod error;
pub mod event_laws;
pub mod history_laws;
pub mod piece_laws;
pub mod queue_laws;
pub mod reader_state;
pub mod recorded;
pub mod recv_stream;
pub mod step_laws;
pub mod stream_buffer;
pub mod stream_type;
pub mod stream_type_reader;
pub mod transport;
pub mod varint;
pub mod wire_laws;
