//! The connection that calls share.
//!
//! [`Connection`] makes every decision of the client; it performs no input
//! or output. The program around it writes the frame that
//! [`begin_call`](Connection::begin_call) returns, hands each frame it reads
//! to [`on_frame`](Connection::on_frame), reports a broken transport with
//! [`close`](Connection::close), and lets each caller ask after its call with
//! [`poll`](Connection::poll) when it is woken or its deadline has come.
//! Guarded by one lock, these four make up the whole shared state.

use crate::codec::decode;
use crate::codec::encode;
use crate::codec::request_frame;
use crate::codec::Kind;
use crate::context::deadline_of;
use crate::context::Context;
use crate::error::Error;
use crate::model::ConnectionModel;
use crate::model::Dispatch;
use crate::model::State;
use crate::table::is_first_free;
use crate::table::is_pending;
use crate::table::progress_at;
use crate::table::CallState;
use crate::table::PendingTable;
use crate::table::Progress;
use vstd::prelude::*;
use vstd::string::StringSliceAdditionalSpecFns;

verus! {

/// The stream id that the first call of a connection gets.
pub const FIRST_STREAM_ID: u64 = 1;

/// What a caller holds of a call that was issued.
#[derive(Clone, Debug, PartialEq, Eq)]
pub struct Ticket {
    /// The id under which the reply will come.
    pub stream_id: u64,
    /// When the call expires, on the clock that `now` was read from.
    pub deadline: u64,
    /// The request, framed; to be written to the transport in one piece.
    pub frame: Vec<u8>,
}

impl Ticket {
    /// How long the caller may still wait at `now`: the time to the
    /// deadline, and nothing once it has come.
    pub fn time_left(&self, now: u64) -> (left: u64)
        ensures
            left == if now >= self.deadline {
                0
            } else {
                self.deadline - now
            },
    {
        if now >= self.deadline {
            0
        } else {
            self.deadline - now
        }
    }
}

/// The shared state of one connection: whether it is open, the stream id
/// counter and the calls in flight.
pub struct Connection {
    state: State,
    dispatcher_claimed: bool,
    next_id: u64,
    table: PendingTable,
}

impl View for Connection {
    type V = ConnectionModel;

    closed spec fn view(&self) -> ConnectionModel {
        ConnectionModel {
            state: self.state,
            dispatcher_claimed: self.dispatcher_claimed,
            next_id: self.next_id,
            calls: self.table@,
        }
    }
}

impl Connection {
    /// An open connection without calls.
    pub fn new() -> (connection: Connection)
        ensures
            connection@ == (ConnectionModel {
                state: State::Running,
                dispatcher_claimed: false,
                next_id: FIRST_STREAM_ID,
                calls: Map::empty(),
            }),
    {
        Connection {
            state: State::Running,
            dispatcher_claimed: false,
            next_id: FIRST_STREAM_ID,
            table: PendingTable::new(),
        }
    }

    /// Whether the connection is running or closed.
    pub fn state(&self) -> (state: State)
        ensures
            state == self@.state,
    {
        self.state
    }

    /// Whether calls can still be issued.
    pub fn is_open(&self) -> (open: bool)
        ensures
            open == (self@.state is Running),
    {
        match self.state {
            State::Running => true,
            State::Closed => false,
        }
    }

    /// Asks to run the dispatcher of this connection. The first to ask is
    /// granted it; everyone after that is refused, so that at most one
    /// dispatcher ever reads from the transport.
    pub fn claim_dispatcher(&mut self) -> (granted: bool)
        ensures
            granted == !old(self)@.dispatcher_claimed,
            final(self)@ == old(self)@.claim_dispatcher(),
    {
        let granted = !self.dispatcher_claimed;
        self.dispatcher_claimed = true;
        granted
    }

    /// Whether the call `id` still waits for its outcome.
    pub fn is_pending(&self, id: u64) -> (yes: bool)
        ensures
            yes == is_pending(self@.calls, id),
    {
        self.table.is_pending(id)
    }

    /// Whether the connection holds a call of that id, pending or completed.
    /// An id that it does not hold is free for a new call.
    pub fn in_use(&self, id: u64) -> (yes: bool)
        ensures
            yes == self@.calls.contains_key(id),
    {
        self.table.contains(id)
    }

    /// Issues a call at `now`. On a closed connection this fails with
    /// `ConnectionClosed` and changes nothing. On an open one it always
    /// succeeds: the call gets the first free stream id, is entered as
    /// pending until the deadline that `ctx` gives, and its frame is
    /// returned for writing.
    pub fn begin_call(&mut self, ctx: &Context, method: &str, payload: &[u8], now: u64) -> (issued:
        Result<Ticket, Error>)
        ensures
            match issued {
                Ok(ticket) => {
                    &&& old(self)@.state is Running
                    &&& is_first_free(old(self)@.calls, old(self)@.next_id, ticket.stream_id)
                    &&& ticket.deadline == deadline_of(ctx@.timeout_nano, now as int)
                    &&& ticket.frame@ == request_frame(
                        ticket.stream_id,
                        method.spec_bytes(),
                        payload@,
                    )
                    &&& final(self)@ == old(self)@.issue(ticket.stream_id, ticket.deadline)
                },
                Err(error) => {
                    &&& old(self)@.state is Closed
                    &&& error is ConnectionClosed
                    &&& final(self)@ == old(self)@
                },
            },
    {
        match self.state {
            State::Closed => Err(Error::ConnectionClosed),
            State::Running => {
                let stream_id = self.table.first_free(self.next_id);
                let deadline = ctx.deadline_at(now);
                let frame = encode(stream_id, method, payload);
                self.table.register(stream_id, deadline);
                self.next_id = if stream_id == u64::MAX {
                    0
                } else {
                    stream_id + 1
                };
                Ok(Ticket { stream_id, deadline, frame })
            },
        }
    }

    /// Takes one frame from the transport. A reply completes the pending
    /// call that it names; a reply for any other id is dropped. Bytes that
    /// are no reply close the connection, which completes every pending call
    /// with `ConnectionClosed`. A closed connection drops everything.
    pub fn on_frame(&mut self, bytes: &[u8]) -> (done: Dispatch)
        ensures
            final(self)@ == old(self)@.receive(bytes@),
            done == old(self)@.dispatch(bytes@),
    {
        match self.state {
            State::Closed => Dispatch::Discarded,
            State::Running => match decode(bytes) {
                Err(_) => {
                    self.close();
                    Dispatch::Closed
                },
                Ok(frame) => {
                    let stream_id = frame.stream_id;
                    let reply = match frame.kind {
                        Kind::Response => Ok(frame.payload),
                        Kind::RemoteError => Err(Error::RemoteError(frame.payload)),
                    };
                    if self.table.complete(stream_id, reply) {
                        Dispatch::Delivered(stream_id)
                    } else {
                        Dispatch::Discarded
                    }
                },
            },
        }
    }

    /// Closes the connection, as on a failure of the transport: every
    /// pending call is completed with `ConnectionClosed`.
    pub fn close(&mut self)
        ensures
            final(self)@ == old(self)@.fail(),
    {
        self.state = State::Closed;
        self.table.fail_all();
    }

    /// Answers the caller of `id` at `now`. A call that is over is handed
    /// its outcome, once, and leaves the connection; a pending call whose
    /// deadline has come is over with `Timeout`.
    pub fn poll(&mut self, id: u64, now: u64) -> (progress: Progress)
        ensures
            progress@ == progress_at(old(self)@.calls, id, now),
            final(self)@ == old(self)@.poll(id, now),
    {
        self.table.poll(id, now)
    }
}

} // verus!
