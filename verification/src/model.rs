//! The connection as a state machine.
//!
//! A connection is `Running` until its transport fails or the peer sends
//! something that is no reply; from then on it is `Closed`, for good. The
//! functions here say what each event does to the connection. The theorems
//! below them say what that means for a caller: a call gets the reply that
//! carries its own stream id and no other, a timeout ends one call only, and
//! a failure ends every call.

use crate::codec::parse_reply;
use crate::codec::FrameModel;
use crate::codec::Kind;
use crate::error::ErrorModel;
use crate::table::fail_pending;
use crate::table::id_after;
use crate::table::is_first_free;
use crate::table::is_pending;
use crate::table::progress_at;
use crate::table::steps_between;
use crate::table::table_after_poll;
use crate::table::CallState;
use crate::table::ProgressModel;
use crate::table::ReplyModel;
use vstd::prelude::*;

verus! {

/// Whether the connection still reads replies.
#[derive(Clone, Copy, Debug, PartialEq, Eq, Structural)]
pub enum State {
    Running,
    /// Terminal: nothing leads back to `Running`.
    Closed,
}

/// What one inbound frame did.
#[derive(Clone, Copy, Debug, PartialEq, Eq, Structural)]
pub enum Dispatch {
    /// The frame completed the call of this id.
    Delivered(u64),
    /// The frame was dropped: no call is pending under its id, or the
    /// connection is closed already.
    Discarded,
    /// The frame was no reply; the connection closed and every pending call
    /// was completed with `ConnectionClosed`.
    Closed,
}

/// Anything that can happen to a connection.
pub enum Event {
    /// A call is issued. It takes effect on a running connection, under the
    /// id that is the first free one.
    Issue { id: u64, deadline: u64 },
    /// A frame arrives.
    Receive { bytes: Seq<u8> },
    /// The transport fails.
    Fail,
    /// The caller of `id` asks after its call at `now`.
    Poll { id: u64, now: u64 },
    /// Someone asks to run the dispatcher.
    ClaimDispatcher,
}

/// The mathematical value of a connection.
pub struct ConnectionModel {
    pub state: State,
    /// Whether the one dispatcher of the connection has been claimed.
    pub dispatcher_claimed: bool,
    /// Where the search for the next free stream id starts.
    pub next_id: u64,
    /// The calls in flight.
    pub calls: Map<u64, CallState>,
}

/// The outcome that a reply carries.
pub open spec fn outcome_of(frame: FrameModel) -> ReplyModel {
    match frame.kind {
        Kind::Response => Ok(frame.payload),
        Kind::RemoteError => Err(ErrorModel::RemoteError(frame.payload)),
    }
}

impl ConnectionModel {
    /// A call is issued under `id` and expires at `deadline`.
    pub open spec fn issue(self, id: u64, deadline: u64) -> ConnectionModel {
        ConnectionModel {
            next_id: id_after(id, 1),
            calls: self.calls.insert(id, CallState::Pending { deadline }),
            ..self
        }
    }

    /// The transport failed, or the peer broke the protocol.
    pub open spec fn fail(self) -> ConnectionModel {
        ConnectionModel { state: State::Closed, calls: fail_pending(self.calls), ..self }
    }

    /// One frame arrived.
    pub open spec fn receive(self, bytes: Seq<u8>) -> ConnectionModel {
        if self.state is Closed {
            self
        } else {
            match parse_reply(bytes) {
                None => self.fail(),
                Some(frame) => if is_pending(self.calls, frame.stream_id) {
                    ConnectionModel {
                        calls: self.calls.insert(
                            frame.stream_id,
                            CallState::Completed { outcome: outcome_of(frame) },
                        ),
                        ..self
                    }
                } else {
                    self
                },
            }
        }
    }

    /// What [`receive`](Self::receive) reports of the frame.
    pub open spec fn dispatch(self, bytes: Seq<u8>) -> Dispatch {
        if self.state is Closed {
            Dispatch::Discarded
        } else {
            match parse_reply(bytes) {
                None => Dispatch::Closed,
                Some(frame) => if is_pending(self.calls, frame.stream_id) {
                    Dispatch::Delivered(frame.stream_id)
                } else {
                    Dispatch::Discarded
                },
            }
        }
    }

    /// The caller of `id` asked after its call at `now`.
    pub open spec fn poll(self, id: u64, now: u64) -> ConnectionModel {
        ConnectionModel { calls: table_after_poll(self.calls, id, now), ..self }
    }

    /// Someone asked to run the dispatcher.
    pub open spec fn claim_dispatcher(self) -> ConnectionModel {
        ConnectionModel { dispatcher_claimed: true, ..self }
    }

    /// What one event does to the connection.
    pub open spec fn step(self, event: Event) -> ConnectionModel {
        match event {
            Event::Issue { id, deadline } => if self.state is Running && is_first_free(
                self.calls,
                self.next_id,
                id,
            ) {
                self.issue(id, deadline)
            } else {
                self
            },
            Event::Receive { bytes } => self.receive(bytes),
            Event::Fail => self.fail(),
            Event::Poll { id, now } => self.poll(id, now),
            Event::ClaimDispatcher => self.claim_dispatcher(),
        }
    }

    /// The events happened one after the other.
    pub open spec fn run(self, events: Seq<Event>) -> ConnectionModel
        decreases events.len(),
    {
        if events.len() == 0 {
            self
        } else {
            self.run(events.drop_last()).step(events.last())
        }
    }
}

/// What one event decides for a pending call of `id`: a reply that carries
/// `id` decides its outcome, and a failure of the transport or a frame that
/// is no reply decides `ConnectionClosed`. Nothing else decides anything.
pub open spec fn verdict(event: Event, id: u64) -> Option<ReplyModel> {
    match event {
        Event::Receive { bytes } => match parse_reply(bytes) {
            None => Some(Err(ErrorModel::ConnectionClosed)),
            Some(frame) => if frame.stream_id == id {
                Some(outcome_of(frame))
            } else {
                None
            },
        },
        Event::Fail => Some(Err(ErrorModel::ConnectionClosed)),
        _ => None,
    }
}

/// What a run of events decides for a pending call of `id`: the first
/// verdict among them. `None` where no event decides.
pub open spec fn fate(events: Seq<Event>, id: u64) -> Option<ReplyModel>
    decreases events.len(),
{
    if events.len() == 0 {
        None
    } else {
        match fate(events.drop_last(), id) {
            Some(outcome) => Some(outcome),
            None => verdict(events.last(), id),
        }
    }
}

/// Whenever the caller of `id` asks during these events, it asks in vain:
/// before `deadline` and before anything has decided its call.
pub open spec fn asks_in_vain(events: Seq<Event>, id: u64, deadline: u64) -> bool {
    forall|i: int|
        0 <= i < events.len() ==> match #[trigger] events[i] {
            Event::Poll { id: asked, now } => asked == id ==> now < deadline && fate(
                events.take(i),
                id,
            ) is None,
            _ => true,
        }
}

/// A reply changes nothing but the call whose stream id it carries.
pub proof fn lemma_reply_touches_one_call(connection: ConnectionModel, bytes: Seq<u8>, other: u64)
    requires
        parse_reply(bytes) is Some,
        parse_reply(bytes)->Some_0.stream_id != other,
    ensures
        connection.receive(bytes).state == connection.state,
        connection.receive(bytes).calls.contains_key(other) == connection.calls.contains_key(other),
        connection.calls.contains_key(other) ==> connection.receive(bytes).calls[other]
            == connection.calls[other],
{
}

/// Whatever happens on the connection, and in whatever order (other calls
/// are issued, time out or are answered, replies arrive, the transport
/// fails, the caller asks while there is nothing for it yet), a pending call
/// ends with the outcome of the first reply that carries its own stream id,
/// or with `ConnectionClosed` where the connection broke first. Until then it
/// stays pending as it was. The caller that asks afterwards is handed exactly
/// that outcome.
pub proof fn lemma_each_call_gets_its_own_reply(
    connection: ConnectionModel,
    events: Seq<Event>,
    id: u64,
    now: u64,
)
    requires
        connection.state is Running,
        is_pending(connection.calls, id),
        asks_in_vain(events, id, connection.calls[id]->deadline),
    ensures
        connection.run(events).calls.contains_key(id),
        match fate(events, id) {
            Some(outcome) => {
                &&& connection.run(events).calls[id] == CallState::Completed { outcome }
                &&& progress_at(connection.run(events).calls, id, now) == ProgressModel::Finished(
                    outcome,
                )
            },
            None => {
                &&& connection.run(events).calls[id] == connection.calls[id]
                &&& connection.run(events).state is Running
            },
        },
    decreases events.len(),
{
    if events.len() > 0 {
        let deadline = connection.calls[id]->deadline;
        let earlier = events.drop_last();
        let last = events.len() - 1;
        assert forall|i: int| 0 <= i < earlier.len() implies match #[trigger] earlier[i] {
            Event::Poll { id: asked, now } => asked == id ==> now < deadline && fate(
                earlier.take(i),
                id,
            ) is None,
            _ => true,
        } by {
            assert(earlier[i] == events[i]);
            assert(earlier.take(i) =~= events.take(i));
        }
        lemma_each_call_gets_its_own_reply(connection, earlier, id, now);
        assert(events.last() == events[last]);
        assert(events.take(last) =~= earlier);
    }
}

/// A call whose deadline has come ends with `Timeout` and leaves the table.
/// Its stream id is free again. No other call and nothing else of the
/// connection is touched, and a reply that arrives for it afterwards is
/// dropped without any effect.
pub proof fn lemma_timeout_is_local(
    connection: ConnectionModel,
    id: u64,
    now: u64,
    late: Seq<u8>,
)
    requires
        is_pending(connection.calls, id),
        now >= connection.calls[id]->deadline,
        parse_reply(late) is Some,
        parse_reply(late)->Some_0.stream_id == id,
    ensures
        progress_at(connection.calls, id, now) == ProgressModel::Finished(
            Err(ErrorModel::Timeout),
        ),
        connection.poll(id, now).state == connection.state,
        connection.poll(id, now).calls == connection.calls.remove(id),
        is_first_free(connection.poll(id, now).calls, id, id),
        connection.poll(id, now).receive(late) == connection.poll(id, now),
        connection.poll(id, now).dispatch(late) == Dispatch::Discarded,
{
}

/// When the connection fails, every call that was pending ends with
/// `ConnectionClosed`. The caller is handed that outcome once: the call is
/// gone afterwards.
pub proof fn lemma_failure_ends_every_call(
    connection: ConnectionModel,
    id: u64,
    now: u64,
    later: u64,
)
    requires
        is_pending(connection.calls, id),
    ensures
        connection.fail().state is Closed,
        progress_at(connection.fail().calls, id, now) == ProgressModel::Finished(
            Err(ErrorModel::ConnectionClosed),
        ),
        progress_at(connection.fail().poll(id, now).calls, id, later) == ProgressModel::Unknown,
{
}

/// A closed connection stays closed: no event brings it back. No call can
/// be issued on it any more, and frames no longer change anything.
pub proof fn lemma_closed_is_terminal(connection: ConnectionModel, event: Event)
    requires
        connection.state is Closed,
    ensures
        connection.step(event).state is Closed,
        event is Issue ==> connection.step(event) == connection,
        event is Receive ==> connection.step(event) == connection,
{
}

/// The first free id is determined: two searches from one place over one
/// table find the same id.
pub proof fn lemma_first_free_is_unique(table: Map<u64, CallState>, from: u64, a: u64, b: u64)
    requires
        is_first_free(table, from, a),
        is_first_free(table, from, b),
    ensures
        a == b,
{
    assert(id_after(from, steps_between(from, a)) == a);
    assert(id_after(from, steps_between(from, b)) == b);
}

} // verus!
