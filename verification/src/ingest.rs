//! The ingestion task: accept a client on the pipe, read its messages while the
//! gate is open, and store each of them in the queue.
//!
//! [`Ingestion`] decides and never waits. Its caller performs one action at a
//! time, and answers it with the event that came of it.

use vstd::prelude::*;

use crate::audit::{AuditEvent, Level};
use crate::clock::ArrivalClock;
use crate::record;

verus! {

/// Most bytes that one read takes from the pipe.
pub const READ_CAPACITY: usize = 65_536;

/// Wait before looking at a closed gate again.
pub const GATE_POLL_MS: u64 = 250;

/// Wait before offering the pipe to the next client.
pub const RECONNECT_MS: u64 = 10;

/// What the caller is to do next.
#[derive(Debug)]
pub enum IngestAction {
    /// Wait for a client on the pipe.
    Connect,
    /// Wait for so many milliseconds.
    Sleep { ms: u64 },
    /// Read from the client, at most `capacity` bytes.
    Read { capacity: usize },
    /// Read the system clock, in nanoseconds since the Unix epoch.
    ReadClock,
    /// Insert an entry into the queue and commit it.
    Store { key: [u8; record::KEY_LEN], value: Vec<u8> },
    /// Write an event to the audit log.
    Audit { event: AuditEvent },
    /// Part from the client.
    Disconnect,
}

/// What came of an action.
#[derive(Debug)]
pub enum IngestEvent {
    /// After `Connect`: whether a client is there.
    Connected { ok: bool },
    /// After `Read`: the bytes that were read, or nothing where reading failed.
    Received { data: Option<Vec<u8>> },
    /// After `ReadClock`: the time.
    Clock { now_nanos: u128 },
    /// After `Store`: what went wrong, if anything.
    Stored { error: Option<String> },
    /// After `Sleep`, `Audit` and `Disconnect`.
    Done,
}

#[derive(Debug)]
enum Phase {
    Connecting,
    Retrying,
    Waiting,
    Reading,
    Stamping { data: Vec<u8> },
    Storing,
    Reporting,
    Parting,
}

/// What an [`IngestAction`] asks for.
pub enum IngestActionView {
    Connect,
    Sleep { ms: u64 },
    Read { capacity: usize },
    ReadClock,
    Store { key: Seq<u8>, value: Seq<u8> },
    Audit { event: crate::audit::AuditEventView },
    Disconnect,
}

/// What an [`IngestEvent`] says.
pub enum IngestEventView {
    Connected { ok: bool },
    Received { data: Option<Seq<u8>> },
    Clock { now_nanos: u128 },
    Stored { error: Option<Seq<char>> },
    Done,
}

/// What the task is waiting for.
pub enum PhaseView {
    /// For a client.
    Connecting,
    /// For the time to offer the pipe again.
    Retrying,
    /// For the time to look at the ingest gate again.
    Waiting,
    /// For a message.
    Reading,
    /// For the time at which the message `data` arrived.
    Stamping { data: Seq<u8> },
    /// For the queue to take an entry.
    Storing,
    /// For the audit log to take an event.
    Reporting,
    /// For the client to be gone.
    Parting,
}

/// Where the task stands: what it is waiting for, and the last stamp it gave.
pub struct IngestState {
    pub phase: PhaseView,
    pub last: crate::clock::Stamp,
}

impl View for IngestAction {
    type V = IngestActionView;

    open spec fn view(&self) -> IngestActionView {
        match *self {
            IngestAction::Connect => IngestActionView::Connect,
            IngestAction::Sleep { ms } => IngestActionView::Sleep { ms },
            IngestAction::Read { capacity } => IngestActionView::Read { capacity },
            IngestAction::ReadClock => IngestActionView::ReadClock,
            IngestAction::Store { key, value } => IngestActionView::Store {
                key: key@,
                value: value@,
            },
            IngestAction::Audit { event } => IngestActionView::Audit { event: event@ },
            IngestAction::Disconnect => IngestActionView::Disconnect,
        }
    }
}

impl View for IngestEvent {
    type V = IngestEventView;

    open spec fn view(&self) -> IngestEventView {
        match *self {
            IngestEvent::Connected { ok } => IngestEventView::Connected { ok },
            IngestEvent::Received { data } => IngestEventView::Received {
                data: match data {
                    Some(d) => Some(d@),
                    None => None,
                },
            },
            IngestEvent::Clock { now_nanos } => IngestEventView::Clock { now_nanos },
            IngestEvent::Stored { error } => IngestEventView::Stored {
                error: match error {
                    Some(e) => Some(e@),
                    None => None,
                },
            },
            IngestEvent::Done => IngestEventView::Done,
        }
    }
}

impl View for Phase {
    type V = PhaseView;

    closed spec fn view(&self) -> PhaseView {
        match *self {
            Phase::Connecting => PhaseView::Connecting,
            Phase::Retrying => PhaseView::Retrying,
            Phase::Waiting => PhaseView::Waiting,
            Phase::Reading => PhaseView::Reading,
            Phase::Stamping { data } => PhaseView::Stamping { data: data@ },
            Phase::Storing => PhaseView::Storing,
            Phase::Reporting => PhaseView::Reporting,
            Phase::Parting => PhaseView::Parting,
        }
    }
}

/// What an optional action asks for.
pub open spec fn action_view(action: Option<IngestAction>) -> Option<IngestActionView> {
    match action {
        Some(a) => Some(a@),
        None => None,
    }
}

/// The event that reports a failed insert.
pub open spec fn insert_failed(error: Seq<char>) -> crate::audit::AuditEventView {
    crate::audit::AuditEventView {
        level: Level::Error,
        event_id: 1022,
        message: "redb insert failed: "@ + error,
    }
}

impl IngestState {
    /// No client yet, and no stamp given.
    pub open spec fn initial() -> IngestState {
        IngestState { phase: PhaseView::Connecting, last: crate::clock::Stamp::zero() }
    }

    /// With a client at hand: read on, or wait where the ingest gate is closed.
    pub open spec fn serve(self, paused: bool) -> (IngestState, IngestActionView) {
        if paused {
            (
                IngestState { phase: PhaseView::Waiting, ..self },
                IngestActionView::Sleep { ms: GATE_POLL_MS },
            )
        } else {
            (
                IngestState { phase: PhaseView::Reading, ..self },
                IngestActionView::Read { capacity: READ_CAPACITY },
            )
        }
    }

    /// Without a client: wait a little before offering the pipe again.
    pub open spec fn retry(self) -> (IngestState, IngestActionView) {
        (
            IngestState { phase: PhaseView::Retrying, ..self },
            IngestActionView::Sleep { ms: RECONNECT_MS },
        )
    }

    /// Where the task stands after `event`, with the ingest gate closed or not, and what
    /// it does next. `None` where the event is no answer to what the task waits
    /// for.
    pub open spec fn next(self, event: IngestEventView, paused: bool) -> Option<
        (IngestState, IngestActionView),
    > {
        match (self.phase, event) {
            (PhaseView::Connecting, IngestEventView::Connected { ok }) => Some(
                if ok {
                    self.serve(paused)
                } else {
                    self.retry()
                },
            ),
            (PhaseView::Retrying, IngestEventView::Done) => Some(
                (
                    IngestState { phase: PhaseView::Connecting, ..self },
                    IngestActionView::Connect,
                ),
            ),
            (PhaseView::Waiting, IngestEventView::Done) => Some(self.serve(paused)),
            (PhaseView::Reading, IngestEventView::Received { data: Some(data) }) => Some(
                if data.len() > 0 {
                    (
                        IngestState { phase: PhaseView::Stamping { data }, ..self },
                        IngestActionView::ReadClock,
                    )
                } else {
                    (
                        IngestState { phase: PhaseView::Parting, ..self },
                        IngestActionView::Disconnect,
                    )
                },
            ),
            (PhaseView::Reading, IngestEventView::Received { data: None }) => Some(
                (
                    IngestState { phase: PhaseView::Parting, ..self },
                    IngestActionView::Disconnect,
                ),
            ),
            (PhaseView::Stamping { data }, IngestEventView::Clock { now_nanos }) => {
                let stamp = self.last.successor(now_nanos);
                Some(
                    (
                        IngestState { phase: PhaseView::Storing, last: stamp },
                        IngestActionView::Store {
                            key: stamp.key(),
                            value: record::value_bytes(stamp.ts_ns, data),
                        },
                    ),
                )
            },
            (PhaseView::Storing, IngestEventView::Stored { error: None }) => Some(
                self.serve(paused),
            ),
            (PhaseView::Storing, IngestEventView::Stored { error: Some(error) }) => Some(
                (
                    IngestState { phase: PhaseView::Reporting, ..self },
                    IngestActionView::Audit { event: insert_failed(error) },
                ),
            ),
            (PhaseView::Reporting, IngestEventView::Done) => Some(self.serve(paused)),
            (PhaseView::Parting, IngestEventView::Done) => Some(self.retry()),
            _ => None,
        }
    }
}

/// The ingestion task.
#[derive(Debug)]
pub struct Ingestion {
    phase: Phase,
    clock: ArrivalClock,
}

impl View for Ingestion {
    type V = IngestState;

    closed spec fn view(&self) -> IngestState {
        IngestState { phase: self.phase@, last: self.clock@ }
    }
}

impl Ingestion {
    /// A task at its start, and its first action: to wait for a client.
    pub fn new() -> (started: (Self, IngestAction))
        ensures
            started.0@ == IngestState::initial(),
            started.1@ == IngestActionView::Connect,
    {
        (Self { phase: Phase::Connecting, clock: ArrivalClock::new() }, IngestAction::Connect)
    }

    /// Takes the answer to the last action, and gives the next one. `paused` says
    /// whether the ingest gate is closed. An event that is no answer to the last action
    /// changes nothing and gives `None`.
    pub fn step(&mut self, event: IngestEvent, paused: bool) -> (action: Option<IngestAction>)
        ensures
            match old(self)@.next(event@, paused) {
                Some((state, asked)) => final(self)@ == state && action_view(action) == Some(asked),
                None => final(self)@ == old(self)@ && action is None,
            },
            action matches Some(IngestAction::Read { capacity }) ==> capacity == 65536 && !paused,
            action matches Some(IngestAction::Sleep { ms }) ==> ms == 10 || (ms == 250 && paused),
    {
        match (&self.phase, event) {
            (Phase::Connecting, IngestEvent::Connected { ok }) => {
                if ok {
                    Some(self.serve(paused))
                } else {
                    Some(self.retry())
                }
            },
            (Phase::Retrying, IngestEvent::Done) => {
                self.phase = Phase::Connecting;
                Some(IngestAction::Connect)
            },
            (Phase::Waiting, IngestEvent::Done) => Some(self.serve(paused)),
            (Phase::Reading, IngestEvent::Received { data: Some(data) }) => {
                if data.len() > 0 {
                    self.phase = Phase::Stamping { data };
                    Some(IngestAction::ReadClock)
                } else {
                    self.phase = Phase::Parting;
                    Some(IngestAction::Disconnect)
                }
            },
            (Phase::Reading, IngestEvent::Received { data: None }) => {
                self.phase = Phase::Parting;
                Some(IngestAction::Disconnect)
            },
            (Phase::Stamping { data }, IngestEvent::Clock { now_nanos }) => {
                let stamp = self.clock.stamp(now_nanos);
                let key = record::make_key(stamp.ts_ns, stamp.ctr);
                let value = record::make_value(stamp.ts_ns, data.as_slice());
                self.phase = Phase::Storing;
                Some(IngestAction::Store { key, value })
            },
            (Phase::Storing, IngestEvent::Stored { error: None }) => Some(self.serve(paused)),
            (Phase::Storing, IngestEvent::Stored { error: Some(error) }) => {
                let mut message = "redb insert failed: ".to_owned();
                message.append(error.as_str());
                self.phase = Phase::Reporting;
                Some(
                    IngestAction::Audit {
                        event: AuditEvent { level: Level::Error, event_id: 1022, message },
                    },
                )
            },
            (Phase::Reporting, IngestEvent::Done) => Some(self.serve(paused)),
            (Phase::Parting, IngestEvent::Done) => Some(self.retry()),
            _ => None,
        }
    }

    fn serve(&mut self, paused: bool) -> (action: IngestAction)
        ensures
            (final(self)@, action@) == old(self)@.serve(paused),
    {
        if paused {
            self.phase = Phase::Waiting;
            IngestAction::Sleep { ms: GATE_POLL_MS }
        } else {
            self.phase = Phase::Reading;
            IngestAction::Read { capacity: READ_CAPACITY }
        }
    }

    fn retry(&mut self) -> (action: IngestAction)
        ensures
            (final(self)@, action@) == old(self)@.retry(),
    {
        self.phase = Phase::Retrying;
        IngestAction::Sleep { ms: RECONNECT_MS }
    }
}

/// `event` is an answer to `action`.
pub open spec fn answers(action: IngestActionView, event: IngestEventView) -> bool {
    match action {
        IngestActionView::Connect => event is Connected,
        IngestActionView::Read { .. } => event is Received,
        IngestActionView::ReadClock => event is Clock,
        IngestActionView::Store { .. } => event is Stored,
        IngestActionView::Sleep { .. } => event is Done,
        IngestActionView::Audit { .. } => event is Done,
        IngestActionView::Disconnect => event is Done,
    }
}

/// The task takes every answer to its first action, and nothing else.
pub proof fn law_first_answer_taken(event: IngestEventView, paused: bool)
    ensures
        IngestState::initial().next(event, paused) is Some <==> answers(
            IngestActionView::Connect,
            event,
        ),
{
}

/// The task takes every answer to the action it asked for, and nothing else: a
/// caller that answers each action never gets stuck.
pub proof fn law_answers_taken(
    state: IngestState,
    event: IngestEventView,
    paused: bool,
    answer: IngestEventView,
    paused_then: bool,
)
    requires
        state.next(event, paused) is Some,
    ensures
        ({
            let (after, action) = state.next(event, paused)->0;
            after.next(answer, paused_then) is Some <==> answers(action, answer)
        }),
{
}

/// Nothing is read from the pipe while the ingest gate is closed.
pub proof fn law_no_read_through_closed_gate(state: IngestState, event: IngestEventView)
    ensures
        state.next(event, true) matches Some((_, action)) ==> action !is Read,
{
}

/// Every message that is read is stored: once the clock has been read, the task
/// asks for an entry under the key of the next stamp, from which the message can be
/// read back, as long as its length fits the length field.
pub proof fn law_message_is_stored(
    state: IngestState,
    data: Seq<u8>,
    paused: bool,
    now_nanos: u128,
    paused_then: bool,
)
    requires
        state.phase is Reading,
        0 < data.len() < 0x1_0000_0000,
    ensures
        ({
            let (stamping, asked) = state.next(
                IngestEventView::Received { data: Some(data) },
                paused,
            )->0;
            let (storing, store) = stamping.next(
                IngestEventView::Clock { now_nanos },
                paused_then,
            )->0;
            &&& asked is ReadClock
            &&& storing.last == state.last.successor(now_nanos)
            &&& store is Store
            &&& store->key == storing.last.key()
            &&& record::message_of(store->value) == data
        }),
{
    record::law_message_round_trip(state.last.successor(now_nanos).ts_ns, data);
}

/// An entry is stored only for a message that was read, and only then a stamp is
/// used up.
pub proof fn law_stamp_used_only_to_store(
    state: IngestState,
    event: IngestEventView,
    paused: bool,
)
    ensures
        state.next(event, paused) matches Some((after, action)) ==> {
            &&& action is Store <==> state.phase is Stamping
            &&& action !is Store ==> after.last == state.last
        },
{
}

/// A closed pipe or a failed read parts from the client, and the pipe is offered
/// again after a short wait.
pub proof fn law_reconnects(
    state: IngestState,
    data: Option<Seq<u8>>,
    paused: bool,
)
    requires
        state.phase is Reading,
        data matches Some(d) ==> d.len() == 0,
    ensures
        ({
            let (parting, first) = state.next(IngestEventView::Received { data }, paused)->0;
            let (retrying, second) = parting.next(IngestEventView::Done, paused)->0;
            let (connecting, third) = retrying.next(IngestEventView::Done, paused)->0;
            &&& first is Disconnect
            &&& second == IngestActionView::Sleep { ms: RECONNECT_MS }
            &&& third is Connect
            &&& connecting.last == state.last
        }),
{
}

/// What an action asks for is what it holds.
pub proof fn law_action_view(action: IngestAction)
    ensures
        action is Connect ==> action@ is Connect,
        action matches IngestAction::Sleep { ms } ==> action@ == (IngestActionView::Sleep { ms }),
        action matches IngestAction::Read { capacity } ==> action@ == (IngestActionView::Read {
            capacity,
        }),
        action is ReadClock ==> action@ is ReadClock,
        action matches IngestAction::Store { key, value } ==> action@ == (
        IngestActionView::Store { key: key@, value: value@ }),
        action matches IngestAction::Audit { event } ==> {
            &&& action@ matches IngestActionView::Audit { event: said }
            &&& said.level == event.level
            &&& said.event_id == event.event_id
            &&& said.message == event.message@
        },
        action is Disconnect ==> action@ is Disconnect,
        action_view(Some(action)) == Some(action@),
{
}

/// What an event says is what it holds.
pub proof fn law_event_view(event: IngestEvent)
    ensures
        event matches IngestEvent::Connected { ok } ==> event@ == (IngestEventView::Connected {
            ok,
        }),
        event matches IngestEvent::Received { data: Some(data) } ==> event@ == (
        IngestEventView::Received { data: Some(data@) }),
        event matches IngestEvent::Received { data: None } ==> event@ == (
        IngestEventView::Received { data: None }),
        event matches IngestEvent::Clock { now_nanos } ==> event@ == (IngestEventView::Clock {
            now_nanos,
        }),
        event matches IngestEvent::Stored { error: Some(error) } ==> event@ == (
        IngestEventView::Stored { error: Some(error@) }),
        event matches IngestEvent::Stored { error: None } ==> event@ == (IngestEventView::Stored {
            error: None,
        }),
        event is Done ==> event@ is Done,
{
}

/// The task starts without a client, with its clock at zero.
pub proof fn law_start()
    ensures
        IngestState::initial().phase is Connecting,
        IngestState::initial().last.ts_ns == 0,
        IngestState::initial().last.ctr == 0,
{
}

/// Every read that the task asks for takes up to 65,536 bytes, after whatever event and
/// in whatever phase, and is asked for only while the ingest gate is open.
pub proof fn law_every_read_is_full(state: IngestState, event: IngestEventView, paused: bool)
    ensures
        state.next(event, paused) matches Some((after, IngestActionView::Read { capacity })) ==> {
            &&& capacity == 65536
            &&& after.phase is Reading
            &&& !paused
        },
{
}

/// With a client at hand and nothing to store, the task reads the next message where the
/// ingest gate is open, and looks at it again after 250 ms where it is closed: once the
/// client is there, once a message is stored, once a failure is reported, and once such
/// a wait is over.
pub proof fn law_client_is_served(state: IngestState, event: IngestEventView, paused: bool)
    requires
        ({
            ||| state.phase is Connecting && event == (IngestEventView::Connected { ok: true })
            ||| state.phase is Waiting && event is Done
            ||| state.phase is Storing && event == (IngestEventView::Stored { error: None })
            ||| state.phase is Reporting && event is Done
        }),
    ensures
        state.next(event, paused) matches Some((after, action)) && {
            &&& after.last == state.last
            &&& !paused ==> after.phase is Reading && action == (IngestActionView::Read {
                capacity: 65536,
            })
            &&& paused ==> after.phase is Waiting && action == (IngestActionView::Sleep { ms: 250 })
        },
{
}

/// Without a client, or once one is gone, the pipe is offered again after 10 ms, whether
/// or not the ingest gate is open.
pub proof fn law_pipe_is_offered_again(state: IngestState, event: IngestEventView, paused: bool)
    ensures
        (state.phase is Connecting && event == (IngestEventView::Connected { ok: false })) || (
        state.phase is Parting && event is Done) ==> state.next(event, paused) == Some(
            (
                IngestState { phase: PhaseView::Retrying, last: state.last },
                IngestActionView::Sleep { ms: 10 },
            ),
        ),
        state.phase is Retrying && event is Done ==> state.next(event, paused) == Some(
            (
                IngestState { phase: PhaseView::Connecting, last: state.last },
                IngestActionView::Connect,
            ),
        ),
{
}

/// What a read brings: bytes are kept, all of them, until the clock has been read; no
/// bytes, or a failure, part from the client.
pub proof fn law_read_is_taken(state: IngestState, data: Option<Seq<u8>>, paused: bool)
    requires
        state.phase is Reading,
    ensures
        state.next(IngestEventView::Received { data }, paused) matches Some((after, action)) && {
            &&& after.last == state.last
            &&& data is Some && (data->0).len() > 0 ==> after.phase == (PhaseView::Stamping {
                data: data->0,
            }) && action is ReadClock
            &&& data is None || (data->0).len() == 0 ==> after.phase is Parting
                && action is Disconnect
        },
{
}

/// A message is stored once its time is known: under a key of 16 bytes and in a value
/// that is a header of 12 bytes and then the message, whatever its length. Key and value
/// start with the same time, that of the new stamp.
pub proof fn law_message_is_kept_whole(
    state: IngestState,
    data: Seq<u8>,
    now_nanos: u128,
    paused: bool,
)
    requires
        state.phase == (PhaseView::Stamping { data }),
    ensures
        state.next(IngestEventView::Clock { now_nanos }, paused) matches Some(
            (after, IngestActionView::Store { key, value }),
        ) && {
            &&& after.phase is Storing
            &&& after.last == state.last.successor(now_nanos)
            &&& key == after.last.key()
            &&& key.len() == 16
            &&& value.len() == 12 + data.len()
            &&& value.subrange(12, value.len() as int) == data
            &&& value.subrange(0, 8) == key.subrange(0, 8)
        },
{
    let stamp = state.last.successor(now_nanos);
    crate::bytes::lemma_be_bytes_len(stamp.ts_ns as nat, 8);
    record::law_key_layout(stamp.ts_ns, stamp.ctr, 0);
    record::law_value_layout(stamp.ts_ns, data, 0);
    record::law_message_behind_header(stamp.ts_ns, data);
    let value = record::value_bytes(stamp.ts_ns, data);
    assert(value.subrange(12, value.len() as int) =~= data);
    assert(value.subrange(0, 8) =~= stamp.key().subrange(0, 8));
}

/// A failed insert is reported to the audit log, as an error with number 1022 that names
/// what went wrong, and the stamp stays used up.
pub proof fn law_failed_insert_is_reported(state: IngestState, error: Seq<char>, paused: bool)
    requires
        state.phase is Storing,
    ensures
        state.next(IngestEventView::Stored { error: Some(error) }, paused) matches Some(
            (after, IngestActionView::Audit { event }),
        ) && {
            &&& after.phase is Reporting
            &&& after.last == state.last
            &&& event.level == Level::Error
            &&& event.event_id == 1022
            &&& event.message == "redb insert failed: "@ + error
        },
{
}

/// The task takes nothing but the answer to what it waits for.
pub proof fn law_events_taken(state: IngestState, event: IngestEventView, paused: bool)
    ensures
        state.next(event, paused) is Some <==> match state.phase {
            PhaseView::Connecting => event is Connected,
            PhaseView::Reading => event is Received,
            PhaseView::Stamping { .. } => event is Clock,
            PhaseView::Storing => event is Stored,
            PhaseView::Retrying | PhaseView::Waiting | PhaseView::Reporting
                | PhaseView::Parting => event is Done,
        },
{
}

} // verus!
