//! The table of calls in flight.
//!
//! Each call owns one record, keyed by its stream id. The record is
//! *pending* until a producer fills its slot, *completed* from then until the
//! caller takes the outcome, and gone afterwards. A slot is filled at most
//! once: a second completer finds nothing to do.

use crate::error::Error;
use crate::error::ErrorModel;
use vstd::prelude::*;

verus! {

/// How a call ended: the payload of the response, or the error.
pub type Reply = Result<Vec<u8>, Error>;

/// The mathematical value of a [`Reply`].
pub type ReplyModel = Result<Seq<u8>, ErrorModel>;

/// The value of a reply.
pub open spec fn reply_view(reply: Reply) -> ReplyModel {
    match reply {
        Ok(payload) => Ok(payload@),
        Err(error) => Err(error@),
    }
}

/// Where a call stands.
pub enum CallState {
    /// No outcome yet; the call expires at `deadline`.
    Pending { deadline: u64 },
    /// The slot holds the outcome, which the caller has not taken yet.
    Completed { outcome: ReplyModel },
}

/// What a caller learns when it asks after its call.
#[derive(Debug, PartialEq, Eq)]
pub enum Progress {
    /// The call is over; this is its outcome, handed out once.
    Finished(Reply),
    /// No outcome yet and the deadline is still ahead.
    Waiting,
    /// The table knows no call of that id.
    Unknown,
}

/// The mathematical value of a [`Progress`].
pub enum ProgressModel {
    Finished(ReplyModel),
    Waiting,
    Unknown,
}

impl View for Progress {
    type V = ProgressModel;

    open spec fn view(&self) -> ProgressModel {
        match self {
            Progress::Finished(reply) => ProgressModel::Finished(reply_view(*reply)),
            Progress::Waiting => ProgressModel::Waiting,
            Progress::Unknown => ProgressModel::Unknown,
        }
    }
}

/// The state of a call after the connection failed: a pending call is
/// completed with `ConnectionClosed`, a completed call keeps its outcome.
pub open spec fn failed(state: CallState) -> CallState {
    match state {
        CallState::Pending { .. } => CallState::Completed {
            outcome: Err(ErrorModel::ConnectionClosed),
        },
        CallState::Completed { outcome } => CallState::Completed { outcome },
    }
}

/// The table after the connection failed: the same calls, each in its
/// [`failed`] state.
pub open spec fn fail_pending(table: Map<u64, CallState>) -> Map<u64, CallState> {
    Map::new(|id: u64| table.contains_key(id), |id: u64| failed(table[id]))
}

/// Whether the call `id` is in the table with an empty slot.
pub open spec fn is_pending(table: Map<u64, CallState>, id: u64) -> bool {
    table.contains_key(id) && table[id] is Pending
}

/// What the caller of `id` learns at `now`: the outcome in its slot; a
/// timeout where the slot is empty and the deadline has come; else that it
/// has to wait.
pub open spec fn progress_at(table: Map<u64, CallState>, id: u64, now: u64) -> ProgressModel {
    if !table.contains_key(id) {
        ProgressModel::Unknown
    } else {
        match table[id] {
            CallState::Completed { outcome } => ProgressModel::Finished(outcome),
            CallState::Pending { deadline } => if now >= deadline {
                ProgressModel::Finished(Err(ErrorModel::Timeout))
            } else {
                ProgressModel::Waiting
            },
        }
    }
}

/// The table after the caller of `id` asked at `now`: a call that is over
/// leaves the table, and nothing else changes.
pub open spec fn table_after_poll(table: Map<u64, CallState>, id: u64, now: u64) -> Map<
    u64,
    CallState,
> {
    if progress_at(table, id, now) is Finished {
        table.remove(id)
    } else {
        table
    }
}

/// The id that lies `steps` after `from`, counting round the `u64` range.
pub open spec fn id_after(from: u64, steps: int) -> u64 {
    ((from + steps) % 0x1_0000_0000_0000_0000) as u64
}

/// How many steps lead from `from` to `to`, counting round the `u64` range.
pub open spec fn steps_between(from: u64, to: u64) -> int {
    if to >= from {
        to - from
    } else {
        to - from + 0x1_0000_0000_0000_0000
    }
}

/// `id` is the first id at or after `from`, counting round the `u64` range,
/// that the table does not hold.
pub open spec fn is_first_free(table: Map<u64, CallState>, from: u64, id: u64) -> bool {
    &&& !table.contains_key(id)
    &&& forall|steps: int|
        0 <= steps < steps_between(from, id) ==> table.contains_key(#[trigger] id_after(from, steps))
}

/// One call: its id, its deadline and its one-shot slot.
struct Call {
    stream_id: u64,
    deadline: u64,
    slot: Option<Reply>,
}

/// The calls in flight on one connection.
pub struct PendingTable {
    calls: Vec<Call>,
}

/// Where the call of a record stands.
spec fn state_of(call: Call) -> CallState {
    match call.slot {
        None => CallState::Pending { deadline: call.deadline },
        Some(reply) => CallState::Completed { outcome: reply_view(reply) },
    }
}

/// Some record carries `id`.
spec fn holds(calls: Seq<Call>, id: u64) -> bool {
    exists|i: int| 0 <= i < calls.len() && (#[trigger] calls[i]).stream_id == id
}

/// The position of a record that carries `id`.
spec fn index_of(calls: Seq<Call>, id: u64) -> int {
    choose|i: int| 0 <= i < calls.len() && (#[trigger] calls[i]).stream_id == id
}

/// No two records share a stream id.
spec fn distinct(calls: Seq<Call>) -> bool {
    forall|i: int, j: int|
        0 <= i < j < calls.len() ==> (#[trigger] calls[i]).stream_id != (#[trigger] calls[j]).stream_id
}

/// The records as a map from stream id to state.
spec fn table_of(calls: Seq<Call>) -> Map<u64, CallState> {
    Map::new(|id: u64| holds(calls, id), |id: u64| state_of(calls[index_of(calls, id)]))
}

/// With distinct ids, the record at a position is the one that the table
/// shows under its id.
proof fn lemma_index(calls: Seq<Call>, i: int)
    requires
        distinct(calls),
        0 <= i < calls.len(),
    ensures
        holds(calls, calls[i].stream_id),
        index_of(calls, calls[i].stream_id) == i,
        table_of(calls).contains_key(calls[i].stream_id),
        table_of(calls)[calls[i].stream_id] == state_of(calls[i]),
{
    let id = calls[i].stream_id;
    let c = index_of(calls, id);
    assert(0 <= c < calls.len() && calls[c].stream_id == id);
}

impl View for PendingTable {
    type V = Map<u64, CallState>;

    /// The calls by stream id.
    closed spec fn view(&self) -> Map<u64, CallState> {
        table_of(self.calls@)
    }
}

impl PendingTable {
    /// No two records share a stream id.
    #[verifier::type_invariant]
    spec fn well_formed(self) -> bool {
        distinct(self.calls@)
    }

    /// An empty table.
    pub fn new() -> (table: PendingTable)
        ensures
            table@ == Map::<u64, CallState>::empty(),
    {
        let table = PendingTable { calls: Vec::new() };
        proof {
            assert(table@ =~= Map::<u64, CallState>::empty());
        }
        table
    }

    /// The position of the call `id`.
    fn find(&self, id: u64) -> (found: Option<usize>)
        ensures
            match found {
                Some(i) => i < self.calls@.len() && self.calls@[i as int].stream_id == id,
                None => !holds(self.calls@, id),
            },
    {
        let mut i: usize = 0;
        while i < self.calls.len()
            invariant
                i <= self.calls@.len(),
                forall|j: int| 0 <= j < i ==> (#[trigger] self.calls@[j]).stream_id != id,
            decreases self.calls@.len() - i,
        {
            if self.calls[i].stream_id == id {
                return Some(i);
            }
            i += 1;
        }
        None
    }

    /// Whether the table holds a call of that id, pending or completed.
    pub fn contains(&self, id: u64) -> (yes: bool)
        ensures
            yes == self@.contains_key(id),
    {
        self.find(id).is_some()
    }

    /// Enters a pending call. An id that the table already holds is refused
    /// and nothing changes.
    pub fn register(&mut self, id: u64, deadline: u64) -> (entered: bool)
        ensures
            entered == !old(self)@.contains_key(id),
            entered ==> final(self)@ == old(self)@.insert(id, CallState::Pending { deadline }),
            !entered ==> final(self)@ == old(self)@,
    {
        proof {
            use_type_invariant(&*self);
        }
        if self.find(id).is_some() {
            return false;
        }
        let call = Call { stream_id: id, deadline, slot: None };
        proof {
            lemma_push(self.calls@, call);
        }
        let mut calls: Vec<Call> = Vec::new();
        std::mem::swap(&mut calls, &mut self.calls);
        calls.push(call);
        self.calls = calls;
        true
    }

    /// Whether the call `id` is in the table and still waits for its outcome.
    pub fn is_pending(&self, id: u64) -> (yes: bool)
        ensures
            yes == is_pending(self@, id),
    {
        proof {
            use_type_invariant(&*self);
        }
        match self.find(id) {
            Some(i) => {
                proof {
                    lemma_index(self.calls@, i as int);
                }
                self.calls[i].slot.is_none()
            },
            None => false,
        }
    }

    /// Fills the slot of the pending call `id` with `reply`. Where the call
    /// is unknown, or its slot is already filled, nothing changes.
    pub fn complete(&mut self, id: u64, reply: Reply) -> (filled: bool)
        ensures
            filled == is_pending(old(self)@, id),
            filled ==> final(self)@ == old(self)@.insert(
                id,
                CallState::Completed { outcome: reply_view(reply) },
            ),
            !filled ==> final(self)@ == old(self)@,
    {
        proof {
            use_type_invariant(&*self);
        }
        match self.find(id) {
            Some(i) => {
                proof {
                    lemma_index(self.calls@, i as int);
                }
                if self.calls[i].slot.is_some() {
                    return false;
                }
                let mut calls: Vec<Call> = Vec::new();
                std::mem::swap(&mut calls, &mut self.calls);
                calls[i].slot = Some(reply);
                proof {
                    lemma_update(old(self).calls@, calls@, i as int);
                }
                self.calls = calls;
                true
            },
            None => false,
        }
    }

    /// Completes every pending call with `ConnectionClosed`.
    pub fn fail_all(&mut self)
        ensures
            final(self)@ == fail_pending(old(self)@),
    {
        proof {
            use_type_invariant(&*self);
        }
        let mut calls: Vec<Call> = Vec::new();
        std::mem::swap(&mut calls, &mut self.calls);
        let ghost before = calls@;
        let mut i: usize = 0;
        while i < calls.len()
            invariant
                i <= calls@.len(),
                calls@.len() == before.len(),
                forall|j: int|
                    0 <= j < before.len() ==> (#[trigger] calls@[j]).stream_id
                        == before[j].stream_id,
                forall|j: int| i <= j < before.len() ==> #[trigger] calls@[j] == before[j],
                forall|j: int|
                    0 <= j < i ==> state_of(#[trigger] calls@[j]) == failed(state_of(before[j])),
            decreases calls@.len() - i,
        {
            if calls[i].slot.is_none() {
                calls[i].slot = Some(Err(Error::ConnectionClosed));
            }
            i += 1;
        }
        proof {
            lemma_fail_all(before, calls@);
        }
        self.calls = calls;
    }

    /// Answers the caller of `id` at `now`. An outcome in the slot is handed
    /// out and the call leaves the table. An empty slot whose deadline has
    /// come is a timeout, and the call leaves the table too. Otherwise the
    /// caller waits and nothing changes.
    pub fn poll(&mut self, id: u64, now: u64) -> (progress: Progress)
        ensures
            progress@ == progress_at(old(self)@, id, now),
            final(self)@ == table_after_poll(old(self)@, id, now),
    {
        proof {
            use_type_invariant(&*self);
        }
        match self.find(id) {
            None => Progress::Unknown,
            Some(i) => {
                proof {
                    lemma_index(self.calls@, i as int);
                }
                if self.calls[i].slot.is_none() && now < self.calls[i].deadline {
                    return Progress::Waiting;
                }
                let mut calls: Vec<Call> = Vec::new();
                std::mem::swap(&mut calls, &mut self.calls);
                proof {
                    lemma_remove(calls@, i as int);
                }
                let call = calls.remove(i);
                self.calls = calls;
                match call.slot {
                    Some(reply) => Progress::Finished(reply),
                    None => Progress::Finished(Err(Error::Timeout)),
                }
            },
        }
    }

    /// The first id at or after `from`, counting round the `u64` range,
    /// that the table does not hold.
    pub fn first_free(&self, from: u64) -> (id: u64)
        ensures
            is_first_free(self@, from, id),
    {
        let total: usize = self.calls.len();
        let mut id: u64 = from;
        let mut tried: usize = 0;
        while self.find(id).is_some()
            invariant
                total == self.calls@.len(),
                tried <= total,
                id == id_after(from, tried as int),
                forall|steps: int|
                    0 <= steps < tried ==> holds(self.calls@, #[trigger] id_after(from, steps)),
            decreases self.calls@.len() - tried,
        {
            proof {
                lemma_pigeonhole(self.calls@, from, tried + 1);
            }
            id = if id == u64::MAX {
                0
            } else {
                id + 1
            };
            tried += 1;
        }
        proof {
            assert(steps_between(from, id) == tried);
        }
        id
    }
}

/// Records that keep their ids keep their positions in the table.
proof fn lemma_same_ids(before: Seq<Call>, after: Seq<Call>)
    requires
        distinct(before),
        after.len() == before.len(),
        forall|j: int|
            0 <= j < before.len() ==> (#[trigger] after[j]).stream_id == before[j].stream_id,
    ensures
        distinct(after),
        forall|id: u64| holds(after, id) == holds(before, id),
        forall|id: u64| holds(before, id) ==> #[trigger] index_of(after, id) == index_of(before, id),
        forall|id: u64|
            holds(before, id) ==> 0 <= #[trigger] index_of(before, id) < before.len()
                && before[index_of(before, id)].stream_id == id,
{
    assert forall|i: int, j: int| 0 <= i < j < after.len() implies (#[trigger] after[i]).stream_id
        != (#[trigger] after[j]).stream_id by {
        assert(before[i].stream_id != before[j].stream_id);
    }
    assert forall|id: u64| holds(after, id) == holds(before, id) by {
        if holds(before, id) {
            let i = index_of(before, id);
            assert(after[i].stream_id == id);
        }
        if holds(after, id) {
            let i = index_of(after, id);
            assert(before[i].stream_id == id);
        }
    }
    assert forall|id: u64| holds(before, id) implies #[trigger] index_of(after, id) == index_of(
        before,
        id,
    ) by {
        let i = index_of(before, id);
        assert(after[i].stream_id == id);
        lemma_index(after, i);
    }
}

/// Changing one record, but not its id, changes that one call in the table.
proof fn lemma_update(before: Seq<Call>, after: Seq<Call>, i: int)
    requires
        distinct(before),
        0 <= i < before.len(),
        after.len() == before.len(),
        after[i].stream_id == before[i].stream_id,
        forall|j: int| 0 <= j < before.len() && j != i ==> after[j] == before[j],
    ensures
        distinct(after),
        table_of(after) =~= table_of(before).insert(before[i].stream_id, state_of(after[i])),
{
    assert forall|j: int| 0 <= j < before.len() implies (#[trigger] after[j]).stream_id
        == before[j].stream_id by {
        if j != i {
            assert(after[j] == before[j]);
        }
    }
    lemma_same_ids(before, after);
    lemma_index(before, i);
    assert forall|id: u64| holds(before, id) && id != before[i].stream_id implies after[index_of(
        after,
        id,
    )] == before[index_of(before, id)] by {
        let j = index_of(before, id);
        assert(after[j] == before[j]);
    }
}

/// Failing every record fails the table.
proof fn lemma_fail_all(before: Seq<Call>, after: Seq<Call>)
    requires
        distinct(before),
        after.len() == before.len(),
        forall|j: int|
            0 <= j < before.len() ==> (#[trigger] after[j]).stream_id == before[j].stream_id,
        forall|j: int| 0 <= j < before.len() ==> state_of(#[trigger] after[j]) == failed(
            state_of(before[j]),
        ),
    ensures
        distinct(after),
        table_of(after) =~= fail_pending(table_of(before)),
{
    lemma_same_ids(before, after);
    assert forall|id: u64| holds(before, id) implies state_of(after[index_of(after, id)])
        == failed(state_of(before[index_of(before, id)])) by {
        let j = index_of(before, id);
        assert(state_of(after[j]) == failed(state_of(before[j])));
    }
}

/// Taking a record out takes its call out of the table.
proof fn lemma_remove(calls: Seq<Call>, i: int)
    requires
        distinct(calls),
        0 <= i < calls.len(),
    ensures
        distinct(calls.remove(i)),
        table_of(calls.remove(i)) =~= table_of(calls).remove(calls[i].stream_id),
{
    let after = calls.remove(i);
    let gone = calls[i].stream_id;
    assert forall|a: int, b: int| 0 <= a < b < after.len() implies (#[trigger] after[a]).stream_id
        != (#[trigger] after[b]).stream_id by {
        let a0 = if a < i { a } else { a + 1 };
        let b0 = if b < i { b } else { b + 1 };
        assert(after[a] == calls[a0]);
        assert(after[b] == calls[b0]);
        assert(calls[a0].stream_id != calls[b0].stream_id);
    }
    assert forall|id: u64| holds(after, id) == (holds(calls, id) && id != gone) by {
        if holds(calls, id) && id != gone {
            let j = index_of(calls, id);
            let j1 = if j < i { j } else { j - 1 };
            assert(after[j1] == calls[j]);
        }
        if holds(after, id) {
            let j = index_of(after, id);
            let j0 = if j < i { j } else { j + 1 };
            assert(after[j] == calls[j0]);
            if id == gone {
                lemma_index(calls, j0);
                lemma_index(calls, i);
            }
        }
    }
    assert forall|id: u64| holds(after, id) implies after[index_of(after, id)] == calls[index_of(
        calls,
        id,
    )] by {
        let j = index_of(after, id);
        let j0 = if j < i { j } else { j + 1 };
        assert(after[j] == calls[j0]);
        lemma_index(calls, j0);
    }
}

/// As many different ids as a list holds cannot be more than its length.
proof fn lemma_pigeonhole(calls: Seq<Call>, from: u64, count: int)
    requires
        0 <= count <= 0x1_0000_0000_0000_0000,
        forall|steps: int| 0 <= steps < count ==> holds(calls, #[trigger] id_after(from, steps)),
    ensures
        count <= calls.len(),
    decreases count,
{
    if count > 0 {
        let last = id_after(from, count - 1);
        assert(holds(calls, last));
        let i = index_of(calls, last);
        let rest = calls.remove(i);
        assert forall|steps: int| 0 <= steps < count - 1 implies holds(
            rest,
            #[trigger] id_after(from, steps),
        ) by {
            let id = id_after(from, steps);
            assert(id != last);
            assert(holds(calls, id));
            let j = index_of(calls, id);
            let j1 = if j < i { j } else { j - 1 };
            assert(rest[j1] == calls[j]);
        }
        lemma_pigeonhole(rest, from, count - 1);
    }
}

/// Appending a record under a new id enters its call into the table.
proof fn lemma_push(calls: Seq<Call>, call: Call)
    requires
        distinct(calls),
        !holds(calls, call.stream_id),
    ensures
        distinct(calls.push(call)),
        table_of(calls.push(call)) =~= table_of(calls).insert(call.stream_id, state_of(call)),
{
    let after = calls.push(call);
    assert forall|i: int, j: int| 0 <= i < j < after.len() implies (#[trigger] after[i]).stream_id
        != (#[trigger] after[j]).stream_id by {
        if j == calls.len() {
            assert(calls[i].stream_id != call.stream_id);
        } else {
            assert(calls[i].stream_id != calls[j].stream_id);
        }
    }
    assert forall|id: u64| holds(after, id) == (holds(calls, id) || id == call.stream_id) by {
        if holds(calls, id) {
            let i = index_of(calls, id);
            assert(after[i].stream_id == id);
        }
        if id == call.stream_id {
            assert(after[calls.len() as int].stream_id == id);
        }
        if holds(after, id) && id != call.stream_id {
            let i = index_of(after, id);
            assert(calls[i].stream_id == id);
        }
    }
    assert forall|id: u64| holds(after, id) implies state_of(after[index_of(after, id)]) == (if id
        == call.stream_id {
        state_of(call)
    } else {
        state_of(calls[index_of(calls, id)])
    }) by {
        if id == call.stream_id {
            lemma_index(after, calls.len() as int);
        } else {
            let i = index_of(calls, id);
            assert(after[i] == calls[i]);
            lemma_index(after, i);
        }
    }
}

} // verus!
