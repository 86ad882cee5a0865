//! Any transport as a connection.
use vstd::prelude::*;

use crate::transport::{ask_of, reply_of, Ask, Connection, StreamRecv, TransportError};

verus! {

/// The function can be called with any transport, any stream and any number of bytes, and never
/// hands out more bytes than it is asked for.
pub open spec fn hands_out_within_bounds<T, F: Fn(T, u64, usize) -> (StreamRecv, T)>(
    recv: F,
) -> bool {
    &&& forall|transport: T, stream_id: u64, max: usize| #[trigger]
        call_requires(recv, (transport, stream_id, max))
    &&& forall|transport: T, stream_id: u64, max: usize, answer: StreamRecv, next: T| #[trigger]
        call_ensures(recv, (transport, stream_id, max), (answer, next)) ==> (answer matches Ok(
            (data, _),
        ) ==> data@.len() <= max)
}

/// A transport and the function that asks it for bytes, together with a record of what it has
/// been asked for.
///
/// The function takes the transport, the number of the stream and how many bytes may be handed
/// out at most, and gives the transport back with its answer.
#[verifier::reject_recursive_types(T)]
pub struct Recorded<T, F: Fn(T, u64, usize) -> (StreamRecv, T)> {
    transport: Option<T>,
    recv: F,
    log: Ghost<Seq<Ask>>,
}

impl<T, F: Fn(T, u64, usize) -> (StreamRecv, T)> Recorded<T, F> {
    #[verifier::type_invariant]
    spec fn within_bounds(&self) -> bool {
        hands_out_within_bounds::<T, F>(self.recv)
    }

    /// The transport. It is not there while it is being asked.
    pub closed spec fn transport(&self) -> Option<T> {
        self.transport
    }

    /// The function that asks it.
    pub closed spec fn recv(&self) -> F {
        self.recv
    }

    /// Starts a record.
    pub fn new(transport: T, recv: F) -> (recorded: Self)
        requires
            hands_out_within_bounds::<T, F>(recv),
        ensures
            recorded.transport() == Some(transport),
            recorded.recv() == recv,
            recorded.log() == Seq::<Ask>::empty(),
    {
        Recorded { transport: Some(transport), recv, log: Ghost(Seq::empty()) }
    }
}

impl<T, F: Fn(T, u64, usize) -> (StreamRecv, T)> Connection for Recorded<T, F> {
    closed spec fn log(&self) -> Seq<Ask> {
        self.log@
    }

    /// The answer, and the transport afterwards, are those of one call of the function. Where
    /// there is no transport, there are no bytes.
    open spec fn answers(&self, ask: Ask, next: Self) -> bool {
        &&& next.recv() == self.recv()
        &&& match self.transport() {
            Some(transport) => exists|answer: StreamRecv, after: T| #[trigger]
                call_ensures(self.recv(), (transport, ask.stream_id, ask.max), (answer, after))
                    && ask.reply == reply_of(answer) && next.transport() == Some(after),
            None => ask.reply == Ok::<(Seq<u8>, bool), TransportError>((Seq::empty(), false))
                && next.transport() is None,
        }
    }

    fn stream_recv(&mut self, stream_id: u64, max: usize) -> (answer: StreamRecv) {
        proof {
            use_type_invariant(&*self);
        }
        let mut transport = None;
        std::mem::swap(&mut self.transport, &mut transport);
        let answer = match transport {
            Some(transport) => {
                let (answer, after) = (self.recv)(transport, stream_id, max);
                self.transport = Some(after);
                answer
            },
            None => Ok((Vec::new(), false)),
        };
        let ghost ask = ask_of(stream_id, max, answer);
        self.log = Ghost(self.log@.push(ask));
        answer
    }
}

} // verus!
