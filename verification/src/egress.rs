//! The egress task: take the oldest entries from the queue, send their messages
//! in one request, and remove them once the server has taken them.
//!
//! [`Egress`] decides and never waits. Its caller performs one action at a time,
//! and answers it with the event that came of it.

use vstd::arithmetic::power2;
use vstd::prelude::*;

use crate::config::ForwarderConfig;
use crate::record;
use crate::record::Entry;

verus! {

/// Most entries in a batch where the configuration names no number.
pub const DEFAULT_BATCH_SIZE: usize = 1_000;

/// First wait after a failed request where the configuration names none.
pub const DEFAULT_BASE_BACKOFF_MS: u64 = 500;

/// Longest wait that doubling leads to.
pub const BACKOFF_CAP_MS: u64 = 30_000;

/// Wait before looking at an empty queue again.
pub const EMPTY_POLL_MS: u64 = 500;

/// What the caller is to do next.
#[derive(Debug)]
pub enum EgressAction {
    /// Read the entries with the smallest keys, in ascending order of keys, at
    /// most `limit` of them.
    ReadBatch { limit: usize },
    /// Wait for so many milliseconds.
    Sleep { ms: u64 },
    /// Send a request with this body.
    Post { body: Vec<u8> },
    /// Remove the entries with these keys from the queue.
    Remove { keys: Vec<[u8; record::KEY_LEN]> },
}

/// What came of an action.
#[derive(Debug)]
pub enum EgressEvent {
    /// After `ReadBatch`: the entries that were read.
    Batch { entries: Vec<Entry> },
    /// After `Post`: the status of the response, or nothing where there is none.
    Response { status: Option<u16> },
    /// After `Sleep` and `Remove`.
    Done,
}

#[derive(Debug)]
enum Phase {
    Reading,
    Sending { keys: Vec<[u8; record::KEY_LEN]> },
    Pausing,
}

/// What an [`EgressAction`] asks for.
pub enum EgressActionView {
    ReadBatch { limit: usize },
    Sleep { ms: u64 },
    Post { body: Seq<u8> },
    Remove { keys: Seq<Seq<u8>> },
}

/// What an [`EgressEvent`] says.
pub enum EgressEventView {
    Batch { entries: Seq<record::EntryView> },
    Response { status: Option<u16> },
    Done,
}

/// What the task is waiting for.
pub enum PhaseView {
    /// For a batch.
    Reading,
    /// For the answer to the request that carries the entries with these keys.
    Sending { keys: Seq<Seq<u8>> },
    /// For the end of a wait or a removal.
    Pausing,
}

/// Where the task stands: what it is waiting for, the wait that the next failure
/// costs, and the settings.
pub struct EgressState {
    pub phase: PhaseView,
    pub backoff_ms: u64,
    pub base_backoff_ms: u64,
    pub batch_size: usize,
}

/// The bytes of a list of keys.
pub open spec fn keys_view(keys: Seq<[u8; record::KEY_LEN]>) -> Seq<Seq<u8>> {
    keys.map_values(|k: [u8; record::KEY_LEN]| k@)
}

impl View for EgressAction {
    type V = EgressActionView;

    open spec fn view(&self) -> EgressActionView {
        match *self {
            EgressAction::ReadBatch { limit } => EgressActionView::ReadBatch { limit },
            EgressAction::Sleep { ms } => EgressActionView::Sleep { ms },
            EgressAction::Post { body } => EgressActionView::Post { body: body@ },
            EgressAction::Remove { keys } => EgressActionView::Remove { keys: keys_view(keys@) },
        }
    }
}

impl View for EgressEvent {
    type V = EgressEventView;

    open spec fn view(&self) -> EgressEventView {
        match *self {
            EgressEvent::Batch { entries } => EgressEventView::Batch {
                entries: record::batch_view(entries@),
            },
            EgressEvent::Response { status } => EgressEventView::Response { status },
            EgressEvent::Done => EgressEventView::Done,
        }
    }
}

impl View for Phase {
    type V = PhaseView;

    closed spec fn view(&self) -> PhaseView {
        match *self {
            Phase::Reading => PhaseView::Reading,
            Phase::Sending { keys } => PhaseView::Sending { keys: keys_view(keys@) },
            Phase::Pausing => PhaseView::Pausing,
        }
    }
}

/// What an optional action asks for.
pub open spec fn action_view(action: Option<EgressAction>) -> Option<EgressActionView> {
    match action {
        Some(a) => Some(a@),
        None => None,
    }
}

/// The server has taken the request: it answered, with a 2xx status.
pub open spec fn accepted(status: Option<u16>) -> bool {
    status matches Some(code) && 200 <= code < 300
}

/// The wait after the next failure: twice as long, up to the cap.
pub open spec fn doubled(backoff_ms: u64) -> u64 {
    if 2 * backoff_ms < BACKOFF_CAP_MS {
        (2 * backoff_ms) as u64
    } else {
        BACKOFF_CAP_MS
    }
}

/// The batch size that a configuration asks for.
pub open spec fn batch_size_of(cfg: ForwarderConfig) -> usize {
    match cfg.batch_size {
        Some(size) => size,
        None => DEFAULT_BATCH_SIZE,
    }
}

/// The first wait after a failure that a configuration asks for.
pub open spec fn base_backoff_of(cfg: ForwarderConfig) -> u64 {
    match cfg.base_backoff_ms {
        Some(ms) => ms,
        None => DEFAULT_BASE_BACKOFF_MS,
    }
}

impl EgressState {
    /// About to read the first batch.
    pub open spec fn initial(cfg: ForwarderConfig) -> EgressState {
        EgressState {
            phase: PhaseView::Reading,
            backoff_ms: base_backoff_of(cfg),
            base_backoff_ms: base_backoff_of(cfg),
            batch_size: batch_size_of(cfg),
        }
    }

    /// Where the task stands after `event`, and what it does next. `None` where
    /// the event is no answer to what the task waits for.
    pub open spec fn next(self, event: EgressEventView) -> Option<(EgressState, EgressActionView)> {
        match (self.phase, event) {
            (PhaseView::Reading, EgressEventView::Batch { entries }) => Some(
                if entries.len() == 0 {
                    (
                        EgressState { phase: PhaseView::Pausing, ..self },
                        EgressActionView::Sleep { ms: EMPTY_POLL_MS },
                    )
                } else {
                    (
                        EgressState {
                            phase: PhaseView::Sending { keys: record::batch_keys(entries) },
                            ..self
                        },
                        EgressActionView::Post { body: record::payload(entries) },
                    )
                },
            ),
            (PhaseView::Sending { keys }, EgressEventView::Response { status }) => Some(
                if accepted(status) {
                    (
                        EgressState {
                            phase: PhaseView::Pausing,
                            backoff_ms: self.base_backoff_ms,
                            ..self
                        },
                        EgressActionView::Remove { keys },
                    )
                } else {
                    (
                        EgressState {
                            phase: PhaseView::Pausing,
                            backoff_ms: doubled(self.backoff_ms),
                            ..self
                        },
                        EgressActionView::Sleep { ms: self.backoff_ms },
                    )
                },
            ),
            (PhaseView::Pausing, EgressEventView::Done) => Some(
                (
                    EgressState { phase: PhaseView::Reading, ..self },
                    EgressActionView::ReadBatch { limit: self.batch_size },
                ),
            ),
            _ => None,
        }
    }
}

/// The egress task.
#[derive(Debug)]
pub struct Egress {
    phase: Phase,
    backoff_ms: u64,
    base_backoff_ms: u64,
    batch_size: usize,
}

impl View for Egress {
    type V = EgressState;

    closed spec fn view(&self) -> EgressState {
        EgressState {
            phase: self.phase@,
            backoff_ms: self.backoff_ms,
            base_backoff_ms: self.base_backoff_ms,
            batch_size: self.batch_size,
        }
    }
}

impl Egress {
    /// A task at its start, and its first action: to read a batch.
    pub fn new(cfg: &ForwarderConfig) -> (started: (Self, EgressAction))
        ensures
            started.0@ == EgressState::initial(*cfg),
            started.1@ == (EgressActionView::ReadBatch { limit: batch_size_of(*cfg) }),
    {
        let batch_size: usize = cfg.batch_size.unwrap_or(DEFAULT_BATCH_SIZE);
        let base_backoff_ms: u64 = cfg.base_backoff_ms.unwrap_or(DEFAULT_BASE_BACKOFF_MS);
        (
            Self { phase: Phase::Reading, backoff_ms: base_backoff_ms, base_backoff_ms, batch_size },
            EgressAction::ReadBatch { limit: batch_size },
        )
    }

    /// Takes the answer to the last action, and gives the next one. An event that
    /// is no answer to the last action changes nothing and gives `None`.
    pub fn step(&mut self, event: EgressEvent) -> (action: Option<EgressAction>)
        ensures
            match old(self)@.next(event@) {
                Some((state, asked)) => final(self)@ == state && action_view(action) == Some(asked),
                None => final(self)@ == old(self)@ && action is None,
            },
            action matches Some(EgressAction::Remove { .. }) ==> (event matches
                EgressEvent::Response { status: Some(code) } && 200 <= code <= 299),
            event matches EgressEvent::Response { status } ==> (action is Some && !(status is Some
                && 200 <= status->0 && status->0 <= 299) ==> action == Some(
                EgressAction::Sleep { ms: old(self)@.backoff_ms },
            )),
            action matches Some(EgressAction::Post { body }) ==> (event matches EgressEvent::Batch {
                entries,
            } && body@ == Seq::new(
                entries@.len(),
                |i: int| record::message_of(entries@[i].value@),
            ).flatten()),
    {
        let mut phase = Phase::Pausing;
        core::mem::swap(&mut phase, &mut self.phase);
        match (phase, event) {
            (Phase::Reading, EgressEvent::Batch { entries }) => {
                if entries.len() == 0 {
                    Some(EgressAction::Sleep { ms: EMPTY_POLL_MS })
                } else {
                    let body = record::batch_payload(&entries);
                    self.phase = Phase::Sending { keys: keys_of(&entries) };
                    Some(EgressAction::Post { body })
                }
            },
            (Phase::Sending { keys }, EgressEvent::Response { status }) => {
                if is_accepted(status) {
                    self.backoff_ms = self.base_backoff_ms;
                    Some(EgressAction::Remove { keys })
                } else {
                    let ms: u64 = self.backoff_ms;
                    self.backoff_ms = if ms < BACKOFF_CAP_MS / 2 {
                        ms * 2
                    } else {
                        BACKOFF_CAP_MS
                    };
                    Some(EgressAction::Sleep { ms })
                }
            },
            (Phase::Pausing, EgressEvent::Done) => {
                self.phase = Phase::Reading;
                Some(EgressAction::ReadBatch { limit: self.batch_size })
            },
            (phase, _) => {
                self.phase = phase;
                None
            },
        }
    }
}

fn is_accepted(status: Option<u16>) -> (yes: bool)
    ensures
        yes == accepted(status),
{
    match status {
        Some(code) => 200 <= code && code < 300,
        None => false,
    }
}

fn keys_of(entries: &Vec<Entry>) -> (keys: Vec<[u8; record::KEY_LEN]>)
    ensures
        keys_view(keys@) == record::batch_keys(record::batch_view(entries@)),
{
    let mut keys: Vec<[u8; record::KEY_LEN]> = Vec::new();
    let mut i: usize = 0;
    while i < entries.len()
        invariant
            i <= entries@.len(),
            keys@.len() == i,
            forall|j: int| 0 <= j < i ==> keys@[j] == entries@[j].key,
        decreases entries@.len() - i,
    {
        keys.push(entries[i].key);
        i += 1;
    }
    assert(keys_view(keys@) =~= record::batch_keys(record::batch_view(entries@)));
    keys
}

/// `event` is an answer to `action`.
pub open spec fn answers(action: EgressActionView, event: EgressEventView) -> bool {
    match action {
        EgressActionView::ReadBatch { .. } => event is Batch,
        EgressActionView::Post { .. } => event is Response,
        EgressActionView::Sleep { .. } => event is Done,
        EgressActionView::Remove { .. } => event is Done,
    }
}

/// The task takes every answer to its first action, and nothing else.
pub proof fn law_first_answer_taken(cfg: ForwarderConfig, event: EgressEventView)
    ensures
        EgressState::initial(cfg).next(event) is Some <==> answers(
            EgressActionView::ReadBatch { limit: batch_size_of(cfg) },
            event,
        ),
{
}

/// The task takes every answer to the action it asked for, and nothing else: a
/// caller that answers each action never gets stuck.
pub proof fn law_answers_taken(
    state: EgressState,
    event: EgressEventView,
    answer: EgressEventView,
)
    requires
        state.next(event) is Some,
    ensures
        ({
            let (after, action) = state.next(event)->0;
            after.next(answer) is Some <==> answers(action, answer)
        }),
{
}

/// A batch that the server has taken is removed, key by key, and nothing else is;
/// one that it has not taken is left alone.
pub proof fn law_batch_removed_iff_accepted(
    state: EgressState,
    entries: Seq<record::EntryView>,
    status: Option<u16>,
)
    requires
        state.phase is Reading,
        entries.len() > 0,
    ensures
        ({
            let (sending, post) = state.next(EgressEventView::Batch { entries })->0;
            let (_, then) = sending.next(EgressEventView::Response { status })->0;
            &&& post == EgressActionView::Post { body: record::payload(entries) }
            &&& then == if accepted(status) {
                EgressActionView::Remove { keys: record::batch_keys(entries) }
            } else {
                EgressActionView::Sleep { ms: state.backoff_ms }
            }
        }),
{
}

/// Entries are removed only on the server's acceptance of the request that
/// carried them.
pub proof fn law_remove_needs_acceptance(state: EgressState, event: EgressEventView)
    ensures
        state.next(event) matches Some((_, EgressActionView::Remove { keys })) ==> {
            &&& state.phase == PhaseView::Sending { keys }
            &&& event matches EgressEventView::Response { status } && accepted(status)
        },
{
}

/// Acceptance brings the wait back to its first length.
pub proof fn law_acceptance_resets_backoff(state: EgressState, status: Option<u16>)
    requires
        state.phase is Sending,
        accepted(status),
    ensures
        (state.next(EgressEventView::Response { status })->0).0.backoff_ms
            == state.base_backoff_ms,
{
}

/// The wait that is due once `failures` requests in a row have failed.
pub open spec fn backoff_after(base_ms: u64, failures: nat) -> u64
    decreases failures,
{
    if failures == 0 {
        base_ms
    } else {
        doubled(backoff_after(base_ms, (failures - 1) as nat))
    }
}

/// After so many failures in a row the next one costs exactly the wait that is
/// due, and leaves the following one due.
pub proof fn law_failure_waits(state: EgressState, status: Option<u16>, failures: nat)
    requires
        state.phase is Sending,
        state.backoff_ms == backoff_after(state.base_backoff_ms, failures),
        !accepted(status),
    ensures
        ({
            let (after, action) = state.next(EgressEventView::Response { status })->0;
            &&& action == EgressActionView::Sleep {
                ms: backoff_after(state.base_backoff_ms, failures),
            }
            &&& after.backoff_ms == backoff_after(after.base_backoff_ms, failures + 1)
        }),
{
}

/// The wait doubles with each failure in a row, and once it has doubled it never
/// exceeds the cap.
pub proof fn law_backoff_doubles(base_ms: u64, failures: nat)
    requires
        failures > 0,
    ensures
        backoff_after(base_ms, failures) == if base_ms * power2::pow2(failures) < BACKOFF_CAP_MS {
            base_ms * power2::pow2(failures)
        } else {
            BACKOFF_CAP_MS as int
        },
    decreases failures,
{
    reveal_with_fuel(backoff_after, 2);
    let less = (failures - 1) as nat;
    power2::lemma_pow2_unfold(failures);
    assert(base_ms * power2::pow2(failures) == 2 * (base_ms * power2::pow2(less))) by (nonlinear_arith)
        requires
            power2::pow2(failures) == 2 * power2::pow2(less),
    ;
    if less > 0 {
        law_backoff_doubles(base_ms, less);
    } else {
        power2::lemma2_to64();
        assert(base_ms * power2::pow2(0) == base_ms) by (nonlinear_arith)
            requires
                power2::pow2(0) == 1,
        ;
    }
}

/// Settings never change: every batch is asked for with the same limit, and every
/// reset goes back to the same wait.
pub proof fn law_settings_fixed(state: EgressState, event: EgressEventView)
    ensures
        state.next(event) matches Some((after, action)) ==> {
            &&& after.batch_size == state.batch_size
            &&& after.base_backoff_ms == state.base_backoff_ms
            &&& action matches EgressActionView::ReadBatch { limit } ==> limit == state.batch_size
        },
{
}

/// What an action asks for is what it holds.
pub proof fn law_action_view(action: EgressAction)
    ensures
        action matches EgressAction::ReadBatch { limit } ==> action@ == (
        EgressActionView::ReadBatch { limit }),
        action matches EgressAction::Sleep { ms } ==> action@ == (EgressActionView::Sleep { ms }),
        action matches EgressAction::Post { body } ==> action@ == (EgressActionView::Post {
            body: body@,
        }),
        action matches EgressAction::Remove { keys } ==> {
            &&& action@ matches EgressActionView::Remove { keys: named }
            &&& named.len() == keys@.len()
            &&& forall|i: int| 0 <= i < keys@.len() ==> #[trigger] named[i] == keys@[i]@
        },
        action_view(Some(action)) == Some(action@),
{
}

/// What an event says is what it holds.
pub proof fn law_event_view(event: EgressEvent)
    ensures
        event matches EgressEvent::Batch { entries } ==> {
            &&& event@ matches EgressEventView::Batch { entries: read }
            &&& read.len() == entries@.len()
            &&& forall|i: int|
                0 <= i < entries@.len() ==> {
                    &&& (#[trigger] read[i]).key == entries@[i].key@
                    &&& read[i].value == entries@[i].value@
                }
        },
        event matches EgressEvent::Response { status } ==> event@ == (EgressEventView::Response {
            status,
        }),
        event matches EgressEvent::Done ==> event@ is Done,
{
}

/// The task starts by reading, with the batch size and the first wait that the
/// configuration names, or 1,000 entries and 500 ms where it names none.
pub proof fn law_start_settings(cfg: ForwarderConfig)
    ensures
        EgressState::initial(cfg).phase is Reading,
        cfg.batch_size matches Some(n) ==> EgressState::initial(cfg).batch_size == n
            && batch_size_of(cfg) == n,
        cfg.batch_size is None ==> EgressState::initial(cfg).batch_size == 1000 && batch_size_of(
            cfg,
        ) == 1000,
        cfg.base_backoff_ms matches Some(ms) ==> EgressState::initial(cfg).base_backoff_ms == ms
            && base_backoff_of(cfg) == ms,
        cfg.base_backoff_ms is None ==> EgressState::initial(cfg).base_backoff_ms == 500
            && base_backoff_of(cfg) == 500,
        EgressState::initial(cfg).backoff_ms == EgressState::initial(cfg).base_backoff_ms,
{
}

/// The answer is a success: it came, with a status from 200 to 299. A request that was
/// refused, redirected or not answered at all is none.
pub proof fn law_only_2xx_is_success(status: Option<u16>)
    ensures
        accepted(status) <==> (status is Some && 200 <= status->0 && status->0 <= 299),
{
}

/// Entries are removed exactly when the answer to the request that carried them has a
/// status from 200 to 299, and then all of them are. For every other status, and for no
/// answer, the task waits and asks for no removal.
pub proof fn law_removal_needs_2xx(state: EgressState, keys: Seq<Seq<u8>>, status: Option<u16>)
    requires
        state.phase == (PhaseView::Sending { keys }),
    ensures
        ({
            let (after, action) = state.next(EgressEventView::Response { status })->0;
            &&& after.phase is Pausing
            &&& status is Some && 200 <= status->0 && status->0 <= 299 ==> action == (
            EgressActionView::Remove { keys })
            &&& status is None || status->0 < 200 || status->0 > 299 ==> action == (
            EgressActionView::Sleep { ms: state.backoff_ms })
        }),
{
}

/// No step but the answer to a request asks for a removal, whatever the event.
pub proof fn law_no_other_step_removes(state: EgressState, event: EgressEventView)
    requires
        event !is Response,
    ensures
        state.next(event) matches Some((_, action)) ==> action !is Remove,
{
}

/// The wait that the next failure costs changes only on an answer to a request: a 2xx
/// status brings it back to its first length, any other answer doubles it, up to 30
/// seconds, and every other step leaves it as it is.
pub proof fn law_wait_changes_only_on_answers(state: EgressState, event: EgressEventView)
    ensures
        state.next(event) matches Some((after, _)) ==> {
            &&& event !is Response ==> after.backoff_ms == state.backoff_ms
            &&& event matches EgressEventView::Response { status } ==> if status is Some && 200
                <= status->0 && status->0 <= 299 {
                after.backoff_ms == state.base_backoff_ms
            } else {
                &&& after.backoff_ms <= 30000
                &&& after.backoff_ms <= 2 * state.backoff_ms
                &&& after.backoff_ms == 30000 || after.backoff_ms == 2 * state.backoff_ms
            }
        },
{
}

/// What the task does with a batch: an empty one costs a wait of 500 ms; any other is
/// posted at once, as the messages of its entries one after the other, and its keys,
/// all of them and no others, are held for the answer.
pub proof fn law_batch_is_posted(state: EgressState, entries: Seq<record::EntryView>)
    requires
        state.phase is Reading,
    ensures
        ({
            let (after, action) = state.next(EgressEventView::Batch { entries })->0;
            &&& entries.len() == 0 ==> action == (EgressActionView::Sleep { ms: 500 })
                && after.phase is Pausing
            &&& entries.len() > 0 ==> {
                &&& action == (EgressActionView::Post {
                    body: Seq::new(
                        entries.len(),
                        |i: int| record::message_of(entries[i].value),
                    ).flatten(),
                })
                &&& after.phase == (PhaseView::Sending {
                    keys: Seq::new(entries.len(), |i: int| entries[i].key),
                })
            }
        }),
{
    let parts = Seq::new(entries.len(), |i: int| record::message_of(entries[i].value));
    record::law_concat_is_append(parts);
    assert(entries.map_values(|e: record::EntryView| record::message_of(e.value)) =~= parts);
    assert(record::batch_keys(entries) =~= Seq::new(entries.len(), |i: int| entries[i].key));
}

/// After a wait or a removal the task reads again, with its batch size as the limit.
pub proof fn law_reads_after_pause(state: EgressState)
    requires
        state.phase is Pausing,
    ensures
        ({
            let (after, action) = state.next(EgressEventView::Done)->0;
            &&& after.phase is Reading
            &&& action == (EgressActionView::ReadBatch { limit: state.batch_size })
        }),
{
}

/// The task takes a batch while it reads, an answer while it sends, the end of a pause
/// while it pauses, and nothing else.
pub proof fn law_events_taken(state: EgressState, event: EgressEventView)
    ensures
        state.phase is Reading ==> (state.next(event) is Some <==> event is Batch),
        state.phase is Sending ==> (state.next(event) is Some <==> event is Response),
        state.phase is Pausing ==> (state.next(event) is Some <==> event is Done),
{
}

/// Where the task stands after `events`, from its start under `cfg`.
pub open spec fn state_after(cfg: ForwarderConfig, events: Seq<EgressEventView>) -> Option<
    EgressState,
>
    decreases events.len(),
{
    if events.len() == 0 {
        Some(EgressState::initial(cfg))
    } else {
        match state_after(cfg, events.drop_last()) {
            Some(state) => match state.next(events.last()) {
                Some((after, _)) => Some(after),
                None => None,
            },
            None => None,
        }
    }
}

/// What the task asks for after `events`, from its start under `cfg`.
pub open spec fn action_after(cfg: ForwarderConfig, events: Seq<EgressEventView>) -> Option<
    EgressActionView,
>
    recommends
        events.len() > 0,
{
    match state_after(cfg, events.drop_last()) {
        Some(state) => match state.next(events.last()) {
            Some((_, action)) => Some(action),
            None => None,
        },
        None => None,
    }
}

/// How many requests in a row were refused or not answered, up to the last event.
pub open spec fn refusals_in_a_row(events: Seq<EgressEventView>) -> nat
    decreases events.len(),
{
    if events.len() == 0 {
        0
    } else {
        let before = refusals_in_a_row(events.drop_last());
        match events.last() {
            EgressEventView::Response { status: Some(code) } => if 200 <= code && code <= 299 {
                0
            } else {
                before + 1
            },
            EgressEventView::Response { status: None } => before + 1,
            _ => before,
        }
    }
}

proof fn lemma_wait_is_due(cfg: ForwarderConfig, events: Seq<EgressEventView>)
    ensures
        state_after(cfg, events) matches Some(state) ==> {
            &&& state.base_backoff_ms == base_backoff_of(cfg)
            &&& state.batch_size == batch_size_of(cfg)
            &&& state.backoff_ms == backoff_after(base_backoff_of(cfg), refusals_in_a_row(events))
        },
    decreases events.len(),
{
    if events.len() > 0 {
        lemma_wait_is_due(cfg, events.drop_last());
    }
}

/// The task backs off: in any run from the start, a request that is refused or not
/// answered, after `n` others in a row since the last success, costs a wait of the
/// first length for `n` = 0, and of the smaller of that length times 2^n and 30 seconds
/// for `n` > 0.
pub proof fn law_run_backs_off(cfg: ForwarderConfig, events: Seq<EgressEventView>, base_ms: u64)
    requires
        cfg.base_backoff_ms matches Some(ms) ==> base_ms == ms,
        cfg.base_backoff_ms is None ==> base_ms == 500,
        events.len() > 0,
        state_after(cfg, events) is Some,
        events.last() matches EgressEventView::Response { status } && !(status is Some && 200
            <= status->0 && status->0 <= 299),
    ensures
        ({
            let n = refusals_in_a_row(events.drop_last());
            &&& n == 0 ==> action_after(cfg, events) == Some(
                EgressActionView::Sleep { ms: base_ms },
            )
            &&& n > 0 && base_ms * power2::pow2(n) < 30000 ==> action_after(cfg, events) == Some(
                EgressActionView::Sleep { ms: (base_ms * power2::pow2(n)) as u64 },
            )
            &&& n > 0 && base_ms * power2::pow2(n) >= 30000 ==> action_after(cfg, events) == Some(
                EgressActionView::Sleep { ms: 30000 },
            )
        }),
{
    lemma_wait_is_due(cfg, events.drop_last());
    let n = refusals_in_a_row(events.drop_last());
    if n > 0 {
        law_backoff_doubles(base_ms, n);
    }
}

/// In any run from the start, what is removed is what was sent: a removal follows a
/// batch and a 2xx answer, and names the keys of that batch, all of them, in order.
pub proof fn law_run_removes_what_was_sent(
    cfg: ForwarderConfig,
    events: Seq<EgressEventView>,
    keys: Seq<Seq<u8>>,
)
    requires
        events.len() > 0,
        action_after(cfg, events) == Some(EgressActionView::Remove { keys }),
    ensures
        events.len() >= 2,
        events.last() matches EgressEventView::Response { status: Some(code) } && 200 <= code
            <= 299,
        events[events.len() - 2] matches EgressEventView::Batch { entries } && {
            &&& entries.len() > 0
            &&& keys.len() == entries.len()
            &&& forall|i: int| 0 <= i < keys.len() ==> #[trigger] keys[i] == entries[i].key
            &&& action_after(cfg, events.drop_last()) == Some(
                EgressActionView::Post {
                    body: Seq::new(
                        entries.len(),
                        |i: int| record::message_of(entries[i].value),
                    ).flatten(),
                },
            )
        },
{
    let earlier = events.drop_last();
    let sending = state_after(cfg, earlier)->0;
    assert(sending.phase == PhaseView::Sending { keys });
    let reading = state_after(cfg, earlier.drop_last())->0;
    assert(reading.phase is Reading);
    law_batch_is_posted(reading, earlier.last()->entries);
    assert(earlier.last() == events[events.len() - 2]);
}

/// In any run from the start, every read asks for the batch size that the configuration
/// names, or for 1,000 entries where it names none.
pub proof fn law_run_reads_batch_size(
    cfg: ForwarderConfig,
    events: Seq<EgressEventView>,
    limit: usize,
)
    requires
        events.len() > 0,
        action_after(cfg, events) == Some(EgressActionView::ReadBatch { limit }),
    ensures
        cfg.batch_size matches Some(n) ==> limit == n,
        cfg.batch_size is None ==> limit == 1000,
{
    lemma_wait_is_due(cfg, events.drop_last());
}

} // verus!
