//! What this library knows of the QUIC transport below it.
use vstd::prelude::*;

verus! {

/// An error code that the application protocol gives a meaning to.
pub type AppError = u64;

/// An error of the transport, by the number under which the transport knows it. It is passed
/// on and never looked into.
#[derive(Debug, Clone, Copy, PartialEq, Eq, PartialOrd, Ord, Structural)]
pub struct TransportError {
    pub code: u64,
}

/// Why a connection is closed.
#[derive(Debug, Clone, Copy, PartialEq, Eq, PartialOrd, Ord, Structural)]
pub enum ConnectionError {
    Transport(TransportError),
    Application(AppError),
}

/// What the transport answers when it is asked for bytes of a stream: the bytes and whether
/// the stream ends with them. No bytes at all means that none are there at the moment.
pub type StreamRecv = Result<(Vec<u8>, bool), TransportError>;

/// What the transport has answered, by the bytes that it handed out.
pub type Reply = Result<(Seq<u8>, bool), TransportError>;

/// The view of one answer of the transport.
pub open spec fn reply_of(recv: StreamRecv) -> Reply {
    match recv {
        Ok((data, fin)) => Ok((data@, fin)),
        Err(error) => Err(error),
    }
}

/// One request for bytes of a stream, and the answer to it.
pub struct Ask {
    pub stream_id: u64,
    pub max: usize,
    pub reply: Reply,
}

/// A request for at most `max` bytes of a stream that has been answered with `answer`.
pub open spec fn ask_of(stream_id: u64, max: usize, answer: StreamRecv) -> Ask {
    Ask { stream_id, max, reply: reply_of(answer) }
}

/// A connection that bytes of streams can be asked for.
pub trait Connection: Sized {
    /// All that it has been asked for, with its answers, in the order of the requests.
    spec fn log(&self) -> Seq<Ask>;

    /// Whether it can answer like that, and be `next` afterwards.
    spec fn answers(&self, ask: Ask, next: Self) -> bool;

    /// Hands out bytes of the stream with the number `stream_id`, no more than `max` of them.
    fn stream_recv(&mut self, stream_id: u64, max: usize) -> (answer: StreamRecv)
        ensures
            final(self).log() == old(self).log().push(ask_of(stream_id, max, answer)),
            old(self).answers(ask_of(stream_id, max, answer), *final(self)),
            reply_of(answer) matches Ok((data, _)) ==> data.len() <= max,
    ;
}

/// Whether the connection `conn` can answer like that, one request after the other, and be
/// `next` afterwards. With no request at all it stays what it is.
pub open spec fn served<C: Connection>(conn: C, asks: Seq<Ask>, next: C) -> bool
    decreases asks.len(),
{
    if asks.len() == 0 {
        next == conn
    } else {
        exists|middle: C|
            served(conn, asks.drop_last(), middle) && #[trigger] middle.answers(asks.last(), next)
    }
}

pub proof fn lemma_served_push<C: Connection>(
    conn: C,
    asks: Seq<Ask>,
    middle: C,
    ask: Ask,
    next: C,
)
    requires
        served(conn, asks, middle),
        middle.answers(ask, next),
    ensures
        served(conn, asks.push(ask), next),
{
    let all = asks.push(ask);
    assert(all.drop_last() =~= asks);
    assert(middle.answers(all.last(), next));
}

pub proof fn lemma_served_concat<C: Connection>(
    conn: C,
    first: Seq<Ask>,
    middle: C,
    second: Seq<Ask>,
    next: C,
)
    requires
        served(conn, first, middle),
        served(middle, second, next),
    ensures
        served(conn, first + second, next),
    decreases second.len(),
{
    if second.len() == 0 {
        assert(first + second =~= first);
    } else {
        let then = choose|then: C|
            served(middle, second.drop_last(), then) && #[trigger] then.answers(
                second.last(),
                next,
            );
        lemma_served_concat(conn, first, middle, second.drop_last(), then);
        lemma_served_push(conn, first + second.drop_last(), then, second.last(), next);
        assert((first + second.drop_last()).push(second.last()) =~= first + second);
    }
}

/// Whether one end of a stream can send on it, or both.
#[derive(Debug, Clone, Copy, PartialEq, Eq, PartialOrd, Ord, Structural)]
pub enum StreamType {
    BiDi,
    UniDi,
}

/// The number of a stream. Its second lowest bit says whether the stream is unidirectional.
#[derive(Debug, Clone, Copy, PartialEq, Eq, PartialOrd, Ord, Structural)]
pub struct StreamId {
    id: u64,
}

/// The type of the stream with the number `id`.
pub open spec fn stream_type_of(id: u64) -> StreamType {
    if (id / 2) % 2 == 0 {
        StreamType::BiDi
    } else {
        StreamType::UniDi
    }
}

impl View for StreamId {
    type V = u64;

    closed spec fn view(&self) -> u64 {
        self.id
    }
}

impl StreamId {
    pub fn new(id: u64) -> (stream_id: Self)
        ensures
            stream_id@ == id,
    {
        StreamId { id }
    }

    pub fn stream_type(&self) -> (stream_type: StreamType)
        ensures
            stream_type == stream_type_of(self@),
    {
        let id = self.id;
        assert(id & 0x02 == 0 <==> (id / 2) % 2 == 0) by (bit_vector);
        if id & 0x02 == 0 {
            StreamType::BiDi
        } else {
            StreamType::UniDi
        }
    }
}

} // verus!
