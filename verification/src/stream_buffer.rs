//! One stream whose bytes are read from memory.
use vstd::prelude::*;

use crate::transport::{ask_of, Ask, Connection, Reply, StreamRecv};

verus! {

/// A connection with a single stream: it hands out the bytes that have arrived on the stream,
/// in their order. On any other stream nothing arrives.
pub struct StreamBuffer {
    stream_id: u64,
    unread: Vec<u8>,
    ended: bool,
    log: Ghost<Seq<Ask>>,
}

/// The stream of a buffer: its number, the bytes that have arrived and were not handed out yet,
/// and whether it ends with them.
pub struct Stream {
    pub stream_id: u64,
    pub unread: Seq<u8>,
    pub ended: bool,
}

impl Stream {
    /// How many bytes a request for at most `max` of them gets.
    pub open spec fn amount(self, max: usize) -> int {
        if max < self.unread.len() {
            max as int
        } else {
            self.unread.len() as int
        }
    }

    /// The answer to a request. The end of the stream is told with its last byte, and whenever
    /// there is no byte left.
    pub open spec fn reply(self, stream_id: u64, max: usize) -> Reply {
        if stream_id == self.stream_id {
            let amount = self.amount(max);
            Ok((self.unread.take(amount), self.ended && amount == self.unread.len()))
        } else {
            Ok((Seq::empty(), false))
        }
    }

    /// The stream after a request.
    pub open spec fn next(self, stream_id: u64, max: usize) -> Stream {
        if stream_id == self.stream_id {
            Stream { unread: self.unread.skip(self.amount(max)), ..self }
        } else {
            self
        }
    }
}

impl View for StreamBuffer {
    type V = Stream;

    closed spec fn view(&self) -> Stream {
        Stream { stream_id: self.stream_id, unread: self.unread@, ended: self.ended }
    }
}

impl StreamBuffer {
    /// A buffer for the stream with the number `stream_id`, on which nothing has arrived.
    pub fn new(stream_id: u64) -> (buffer: Self)
        ensures
            buffer@ == (Stream { stream_id, unread: Seq::empty(), ended: false }),
            buffer.log() == Seq::<Ask>::empty(),
    {
        StreamBuffer { stream_id, unread: Vec::new(), ended: false, log: Ghost(Seq::empty()) }
    }

    /// More bytes have arrived.
    pub fn arrive(&mut self, data: &[u8])
        ensures
            final(self)@ == (Stream { unread: old(self)@.unread + data@, ..old(self)@ }),
            final(self).log() == old(self).log(),
    {
        self.unread.extend_from_slice(data);
        assert(self.unread@ =~= old(self)@.unread + data@);
    }

    /// No more bytes will arrive.
    pub fn end(&mut self)
        ensures
            final(self)@ == (Stream { ended: true, ..old(self)@ }),
            final(self).log() == old(self).log(),
    {
        self.ended = true;
    }

    /// The bytes that were not handed out yet.
    pub fn unread(&self) -> (unread: &[u8])
        ensures
            unread@ == self@.unread,
    {
        self.unread.as_slice()
    }
}

impl Connection for StreamBuffer {
    closed spec fn log(&self) -> Seq<Ask> {
        self.log@
    }

    open spec fn answers(&self, ask: Ask, next: Self) -> bool {
        &&& ask.reply == self@.reply(ask.stream_id, ask.max)
        &&& next@ == self@.next(ask.stream_id, ask.max)
    }

    fn stream_recv(&mut self, stream_id: u64, max: usize) -> (answer: StreamRecv) {
        let answer = if stream_id == self.stream_id {
            let amount = if max < self.unread.len() {
                max
            } else {
                self.unread.len()
            };
            let mut data = self.unread.split_off(amount);
            std::mem::swap(&mut self.unread, &mut data);
            Ok((data, self.ended && self.unread.len() == 0))
        } else {
            Ok((Vec::new(), false))
        };
        self.log = Ghost(self.log@.push(ask_of(stream_id, max, answer)));
        answer
    }
}

} // verus!
