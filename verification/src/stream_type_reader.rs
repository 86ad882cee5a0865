//! Finds out what a stream that the peer has opened is for.
use vstd::prelude::*;

use crate::call_laws::{law_read_leaves_a_beginning, law_read_takes_one_integer};
use crate::error::{Error, Res};
use crate::history_laws::{lemma_taken, since, taken_from};
use crate::reader_state::{
    after, asked, asks, exchange, lemma_asked_concat, lemma_asked_push, lemma_continue,
    lemma_silent_push, quiet, reading, silent, ReaderState,
};
use crate::recv_stream::{Http3StreamType, NewStreamType, ReceiveOutput, ResetType};
use crate::stream_type::{decode_stream_type, map_stream_fin};
use crate::transport::{reply_of, AppError, Connection, Reply, StreamId};
use crate::varint::{is_varint, lemma_varint_value_bound, IncrementalDecoderUint};
use crate::wire_laws::{cut_off, lemma_cut_off, lemma_spells, spells};

verus! {

/// Reads from a stream what the stream is for.
#[derive(Debug, PartialEq)]
pub enum NewStreamTypeReader {
    /// The first integer on the stream is being read.
    ReadType { reader: IncrementalDecoderUint, stream_id: u64 },
    /// The stream belongs to WebTransport and the number of its session is being read.
    ReadWtSessionId { reader: IncrementalDecoderUint, stream_id: u64 },
    /// Nothing more is read.
    Done,
}

impl View for NewStreamTypeReader {
    type V = ReaderState;

    open spec fn view(&self) -> ReaderState {
        match self {
            NewStreamTypeReader::ReadType { reader, stream_id } => ReaderState::ReadType {
                read: reader@,
                stream_id: *stream_id,
            },
            NewStreamTypeReader::ReadWtSessionId { reader, stream_id } => {
                ReaderState::ReadWtSessionId { read: reader@, stream_id: *stream_id }
            },
            NewStreamTypeReader::Done => ReaderState::Done,
        }
    }
}

/// What `receive` gives for what `get_type` has found.
pub open spec fn received(found: Res<Option<NewStreamType>>) -> Res<ReceiveOutput> {
    match found {
        Err(error) => Err(error),
        Ok(None) => Ok(ReceiveOutput::NoOutput),
        Ok(Some(stream_type)) => Ok(ReceiveOutput::NewStream(stream_type)),
    }
}

impl NewStreamTypeReader {
    /// A reader for the stream with the number `stream_id`.
    pub fn new(stream_id: u64) -> (reader: Self)
        ensures
            reader@ == (ReaderState::ReadType { read: Seq::empty(), stream_id }),
    {
        NewStreamTypeReader::ReadType { reader: IncrementalDecoderUint::default(), stream_id }
    }

    /// What the transport is to be asked for: the number of the stream and how many bytes may
    /// be handed out at most. A reader that is done asks for nothing.
    pub fn request(&self) -> (request: Option<(u64, usize)>)
        ensures
            self@.wf(),
            self@ is Done <==> request is None,
            request matches Some((stream_id, max)) ==> stream_id == self@.stream_id() && max
                == self@.wanted(),
    {
        match self {
            NewStreamTypeReader::ReadType { reader, stream_id }
            | NewStreamTypeReader::ReadWtSessionId { reader, stream_id } => {
                Some((*stream_id, reader.min_remaining()))
            },
            NewStreamTypeReader::Done => None,
        }
    }

    /// Takes what the transport has handed out, and gives the integer at hand, if it is now
    /// complete, and whether the stream has ended. `None` means that the transport is to be
    /// asked again.
    pub fn absorb(&mut self, data: &[u8], fin: bool) -> (shown: Option<(Option<u64>, bool)>)
        requires
            !(old(self)@ is Done),
            data@.len() <= old(self)@.wanted(),
        ensures
            (final(self)@, shown) == old(self)@.absorb(data@, fin),
            shown is None ==> final(self)@.wf(),
    {
        if data.len() == 0 {
            assert(self@.read() + data@ =~= self@.read());
            return Some((None, fin));
        }
        assert(data@.take(data@.len() as int) =~= data@);
        let output = match self {
            NewStreamTypeReader::ReadType { reader, .. } => reader.consume(data),
            NewStreamTypeReader::ReadWtSessionId { reader, .. } => reader.consume(data),
            NewStreamTypeReader::Done => None,
        };
        if output.is_some() || fin {
            Some((output, fin))
        } else {
            None
        }
    }

    /// Draws the conclusion from an integer that has been read, or can not be read for now, and
    /// gives the answer of `get_type`. `None` means that another integer has to be read.
    pub fn settle(&mut self, output: Option<u64>, fin: bool) -> (answer: Option<
        Res<Option<NewStreamType>>,
    >)
        requires
            output is Some ==> !(old(self)@ is Done),
        ensures
            (final(self)@, answer) == old(self)@.settle(output, fin),
    {
        match output {
            None => {
                if fin {
                    *self = NewStreamTypeReader::Done;
                }
                Some(Ok(None))
            },
            Some(value) => {
                match self {
                    NewStreamTypeReader::ReadType { stream_id, .. } => {
                        let stream_id = *stream_id;
                        match decode_stream_type(value, StreamId::new(stream_id).stream_type()) {
                            Err(error) => Some(Err(error)),
                            Ok(decoded) => {
                                if fin {
                                    *self = NewStreamTypeReader::Done;
                                    return Some(map_stream_fin(decoded));
                                }
                                if decoded.is_some() {
                                    *self = NewStreamTypeReader::Done;
                                    return Some(Ok(decoded));
                                }
                                // A WebTransport stream: the number of its session is next.
                                *self = NewStreamTypeReader::ReadWtSessionId {
                                    reader: IncrementalDecoderUint::default(),
                                    stream_id,
                                };
                                None
                            },
                        }
                    },
                    _ => {
                        *self = NewStreamTypeReader::Done;
                        Some(Ok(Some(NewStreamType::WebTransportStream(value))))
                    },
                }
            },
        }
    }

    /// Asks the connection for bytes until the integer at hand is complete, the stream has ended
    /// or no more bytes are there. Each request is for bytes of this stream, and for as many as
    /// the integer lacks. A reader that is done asks for nothing.
    fn read<C: Connection>(&mut self, conn: &mut C) -> (res: Res<(Option<u64>, bool)>)
        ensures
            old(self)@.wf(),
            final(self)@ == old(self)@.with_read(final(self)@.read()),
            exists|replies: Seq<Reply>| #[trigger]
                reading(*old(conn), old(self)@, replies, *final(conn), final(self)@, res),
    {
        let ghost mut replies = Seq::<Reply>::empty();
        proof {
            assert(asks(self@, replies) =~= Seq::empty());
            assert(conn.log() + asks(self@, replies) =~= conn.log());
        }
        loop
            invariant
                replies.len() == 0 ==> self@ == old(self)@,
                replies.len() > 0 ==> old(self)@.wf(),
                self@ == old(self)@.with_read(self@.read()),
                self@ == after(old(self)@, replies),
                self@ is Done ==> replies.len() == 0,
                silent(old(self)@, replies),
                asked(*old(conn), old(self)@, replies, *conn),
            decreases self@.budget(),
        {
            let (stream_id, to_read) = match self.request() {
                Some(request) => request,
                None => {
                    let res = Ok((None, false));
                    assert(reading(*old(conn), old(self)@, replies, *conn, self@, res));
                    return res;
                },
            };
            let ghost before = replies;
            let ghost earlier = *conn;
            let answer = conn.stream_recv(stream_id, to_read);
            proof {
                replies = before.push(reply_of(answer));
                assert(replies.drop_last() =~= before);
                assert(replies.take(replies.len() - 1) =~= before);
                lemma_asked_push(*old(conn), old(self)@, before, earlier, answer, *conn);
            }
            match answer {
                Err(error) => {
                    let res = Err(Error::TransportError(error));
                    assert(reading(*old(conn), old(self)@, replies, *conn, self@, res));
                    return res;
                },
                Ok((data, fin)) => {
                    if let Some(shown) = self.absorb(data.as_slice(), fin) {
                        let res = Ok(shown);
                        assert(reading(*old(conn), old(self)@, replies, *conn, self@, res));
                        return res;
                    }
                    proof {
                        lemma_silent_push(old(self)@, before, replies.last());
                    }
                },
            }
        }
    }

    /// Asks the connection for bytes until they tell what the stream is for, the stream has
    /// ended or no more bytes are there.
    ///
    /// Every request is for bytes of this stream, and for no more of them than the integer at
    /// hand lacks, so nothing is taken that lies behind the integers that tell what the stream
    /// is for. A reader that is done asks for nothing.
    pub fn get_type<C: Connection>(&mut self, conn: &mut C) -> (res: Res<Option<NewStreamType>>)
        ensures
            old(self)@.wf(),
            exists|replies: Seq<Reply>| #[trigger]
                exchange(*old(conn), old(self)@, replies, *final(conn), final(self)@, res),
    {
        let ghost mut replies = Seq::<Reply>::empty();
        proof {
            assert(asks(self@, replies) =~= Seq::empty());
            assert(conn.log() + asks(self@, replies) =~= conn.log());
        }
        loop
            invariant
                replies.len() == 0 ==> self@ == old(self)@,
                replies.len() > 0 ==> old(self)@.wf(),
                old(self)@ is Done ==> replies.len() == 0,
                !(old(self)@ is Done) ==> !(self@ is Done),
                self@ == after(old(self)@, replies),
                quiet(old(self)@, replies),
                asked(*old(conn), old(self)@, replies, *conn),
            decreases self@.budget(),
        {
            let ghost start = self@;
            let ghost prior = replies;
            let ghost earlier = *conn;
            let read = self.read(conn);
            let ghost middle = self@;
            let answer = match read {
                Err(error) => Some(Err(error)),
                Ok((output, fin)) => self.settle(output, fin),
            };
            proof {
                let latest = choose|latest: Seq<Reply>| #[trigger]
                    reading(earlier, start, latest, *conn, middle, read);
                replies = prior + latest;
                lemma_asked_concat(*old(conn), old(self)@, prior, earlier, latest, *conn);
                if !(start is Done) {
                    lemma_continue(old(self)@, prior, latest, middle, read);
                }
                if answer is Some {
                    assert(exchange(
                        *old(conn),
                        old(self)@,
                        replies,
                        *conn,
                        self@,
                        answer->0,
                    ));
                }
            }
            if let Some(res) = answer {
                return res;
            }
        }
    }

    /// The stream has been reset: nothing more is read from it.
    pub fn stream_reset(&mut self, _error: AppError, _reset_type: ResetType) -> (res: Res<()>)
        ensures
            final(self)@ is Done,
            res == Ok::<(), Error>(()),
    {
        *self = NewStreamTypeReader::Done;
        Ok(())
    }

    /// Does what `get_type` does, and gives the result as that of any stream.
    pub fn receive<C: Connection>(&mut self, conn: &mut C) -> (res: Res<ReceiveOutput>)
        ensures
            old(self)@.wf(),
            exists|replies: Seq<Reply>, found: Res<Option<NewStreamType>>| #[trigger]
                exchange(*old(conn), old(self)@, replies, *final(conn), final(self)@, found) && res
                    == received(found),
    {
        match self.get_type(conn) {
            Err(error) => Err(error),
            Ok(None) => Ok(ReceiveOutput::NoOutput),
            Ok(Some(stream_type)) => Ok(ReceiveOutput::NewStream(stream_type)),
        }
    }

    /// Whether nothing more is read.
    pub fn done(&self) -> (done: bool)
        ensures
            done == (self@ is Done),
    {
        matches!(self, NewStreamTypeReader::Done)
    }

    /// What the stream is used for, which is not known as long as there is a reader for it.
    pub fn stream_type(&self) -> (stream_type: Http3StreamType)
        ensures
            stream_type == Http3StreamType::NewStream,
    {
        Http3StreamType::NewStream
    }
}

/// Reading goes on until the integer at hand is complete, the stream has ended, no byte is there or
/// the connection fails. What has been read of the integer afterwards is what was read of it
/// before and what the connection has handed out of the stream, and if these are all its bytes,
/// its value is given.
proof fn law_read_reads_one_integer<C: Connection>(
    reader: &mut NewStreamTypeReader,
    conn: &mut C,
    res: Res<(Option<u64>, bool)>,
    value: u64,
)
    requires
        call_ensures(NewStreamTypeReader::read::<C>, (reader, conn), res),
        !(old(reader)@ is Done),
        cut_off(old(reader)@.read()),
    ensures
        ({
            let log = since(*old(conn), *final(conn));
            let bytes = old(reader)@.read() + taken_from(log, old(reader)@.stream_id());
            &&& log.len() > 0
            &&& final(conn).log() == old(conn).log() + log
            &&& final(reader)@.read() == bytes
            &&& final(reader)@ is ReadType <==> old(reader)@ is ReadType
            &&& !(final(reader)@ is Done)
            &&& final(reader)@.stream_id() == old(reader)@.stream_id()
            &&& match log.last().reply {
                Err(error) => res == Err::<(Option<u64>, bool), Error>(
                    Error::TransportError(error),
                ) && cut_off(bytes),
                Ok((data, fin)) => {
                    &&& spells(bytes, value as int) <==> res == Ok::<(Option<u64>, bool), Error>(
                        (Some(value), fin),
                    )
                    &&& cut_off(bytes) <==> res == Ok::<(Option<u64>, bool), Error>((None, fin))
                    &&& cut_off(bytes) ==> data.len() == 0 || fin
                },
            }
        }),
{
    let start = old(reader)@;
    let replies = choose|replies: Seq<Reply>| #[trigger]
        reading(*old(conn), start, replies, *final(conn), final(reader)@, res);
    let log = since(*old(conn), *final(conn));
    assert(log =~= asks(start, replies));
    assert(final(conn).log() =~= old(conn).log() + log);
    lemma_taken(start, replies, start.stream_id());
    law_read_takes_one_integer(*old(conn), start, replies, *final(conn), final(reader)@, res);
    law_read_leaves_a_beginning(*old(conn), start, replies, *final(conn), final(reader)@, res);
    let bytes = final(reader)@.read();
    lemma_cut_off(start.read());
    lemma_cut_off(bytes);
    lemma_spells(bytes, value as int);
    if is_varint(bytes) {
        lemma_varint_value_bound(bytes);
    }
}

} // verus!
