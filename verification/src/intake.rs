//! Ingestion and the store that it writes to, whatever the store held before: each
//! chunk that is read becomes one record, and no other record is touched.

use vstd::prelude::*;

use crate::audit;
use crate::bytes;
use crate::clock;
use crate::delivery;
use crate::ingest;
use crate::record;
use crate::relay;

verus! {

/// An answer that the ingestion task gets, and whether the ingest gate is closed then.
pub struct IntakeInput {
    pub event: ingest::IngestEventView,
    pub paused: bool,
}

/// The ingestion task, the store, and what has happened so far.
pub struct Intake {
    pub task: ingest::IngestState,
    /// The store.
    pub table: Map<Seq<u8>, Seq<u8>>,
    /// The chunks that were read from the pipe, in order.
    pub chunks: Seq<Seq<u8>>,
    /// The record that the task has asked to insert.
    pub pending: Option<relay::Arrival>,
    /// The records that were inserted, in order.
    pub inserted: Seq<relay::Arrival>,
    /// The events handed to the audit log.
    pub audited: Seq<audit::AuditEventView>,
}

impl Intake {
    /// Ingestion at its start, over a store that holds `table`.
    pub open spec fn start(table: Map<Seq<u8>, Seq<u8>>) -> Intake {
        Intake {
            task: ingest::IngestState::initial(),
            table,
            chunks: Seq::empty(),
            pending: None,
            inserted: Seq::empty(),
            audited: Seq::empty(),
        }
    }

    /// Ingestion after an answer, or `None` where it is none to what the task waits
    /// for. An insert that is answered without an error has taken effect.
    pub open spec fn after(self, input: IntakeInput) -> Option<Intake> {
        match self.task.next(input.event, input.paused) {
            None => None,
            Some((task, action)) => {
                let stored = input.event == (ingest::IngestEventView::Stored { error: None });
                Some(
                    Intake {
                        task,
                        table: match self.pending {
                            Some(a) => if stored {
                                self.table.insert(a.entry().key, a.entry().value)
                            } else {
                                self.table
                            },
                            None => self.table,
                        },
                        chunks: match action {
                            ingest::IngestActionView::ReadClock => self.chunks.push(
                                task.phase->data,
                            ),
                            _ => self.chunks,
                        },
                        pending: match self.task.phase {
                            ingest::PhaseView::Stamping { data } => Some(
                                relay::Arrival { stamp: task.last, message: data },
                            ),
                            _ => None,
                        },
                        inserted: match self.pending {
                            Some(a) => if stored {
                                self.inserted.push(a)
                            } else {
                                self.inserted
                            },
                            None => self.inserted,
                        },
                        audited: match action {
                            ingest::IngestActionView::Audit { event } => self.audited.push(event),
                            _ => self.audited,
                        },
                    },
                )
            },
        }
    }

    /// How many chunks have been read that are not inserted yet: the one that the
    /// task is about to stamp or to store, if any.
    pub open spec fn under_way(self) -> nat {
        if self.task.phase is Stamping || self.task.phase is Storing {
            1
        } else {
            0
        }
    }

    /// What holds while every insert succeeds.
    pub open spec fn inv(self, earlier: Map<Seq<u8>, Seq<u8>>) -> bool {
        let n = self.inserted.len();
        // One record for each chunk, in order.
        &&& self.chunks.len() == n + self.under_way()
        &&& forall|i: int| 0 <= i < n ==> (#[trigger] self.inserted[i]).message == self.chunks[i]
        &&& self.task.phase matches ingest::PhaseView::Stamping { data } ==> data
            == self.chunks.last()
        &&& self.task.phase is Storing <==> self.pending is Some
        &&& self.pending matches Some(a) ==> {
            &&& a.message == self.chunks.last()
            &&& a.stamp == self.task.last
            &&& n > 0 ==> self.inserted.last().stamp.before(a.stamp)
        }
        // In the order of stamps, of which the clock holds the last.
        &&& relay::in_stamp_order(self.inserted)
        &&& self.task.phase !is Storing ==> self.task.last == if n == 0 {
            clock::Stamp::zero()
        } else {
            self.inserted.last().stamp
        }
        &&& self.task.last.ctr <= if self.task.phase is Storing {
            n + 1
        } else {
            n
        }
        // The store holds them, and all else as it was.
        &&& forall|i: int|
            0 <= i < n ==> self.table.contains_pair(
                (#[trigger] self.inserted[i]).entry().key,
                self.inserted[i].entry().value,
            )
        &&& forall|k: Seq<u8>| #[trigger]
            self.wrote(k) || untouched(earlier, self.table, k)
        // Nothing to report.
        &&& self.task.phase !is Reporting
        &&& self.audited.len() == 0
    }

    /// A record was inserted under key `k`.
    pub open spec fn wrote(self, k: Seq<u8>) -> bool {
        exists|i: int| 0 <= i < self.inserted.len() && (#[trigger] self.inserted[i]).entry().key == k
    }
}

/// The record under key `k` is the same before and after, or is in neither store.
pub open spec fn untouched(
    before: Map<Seq<u8>, Seq<u8>>,
    after: Map<Seq<u8>, Seq<u8>>,
    k: Seq<u8>,
) -> bool {
    if before.contains_key(k) {
        after.contains_pair(k, before[k])
    } else {
        !after.contains_key(k)
    }
}

/// Ingestion after one answer after the other.
pub open spec fn intake_run(s: Intake, inputs: Seq<IntakeInput>) -> Option<Intake>
    decreases inputs.len(),
{
    if inputs.len() == 0 {
        Some(s)
    } else {
        match intake_run(s, inputs.drop_last()) {
            Some(t) => t.after(inputs.last()),
            None => None,
        }
    }
}

/// No insert is answered with an error.
pub open spec fn all_stored(inputs: Seq<IntakeInput>) -> bool {
    forall|i: int|
        0 <= i < inputs.len() ==> ((#[trigger] inputs[i]).event matches
            ingest::IngestEventView::Stored { error } ==> error is None)
}

#[verifier::rlimit(40)]
proof fn lemma_intake_step(s: Intake, input: IntakeInput, earlier: Map<Seq<u8>, Seq<u8>>)
    requires
        s.inv(earlier),
        s.after(input) is Some,
        (s.after(input)->0).chunks.len() <= u64::MAX,
        input.event matches ingest::IngestEventView::Stored { error } ==> error is None,
    ensures
        (s.after(input)->0).inv(earlier),
{
    let t = s.after(input)->0;
    let n = s.inserted.len() as int;
    if s.task.phase is Stamping && n > 0 {
        clock::law_stamps_advance(s.task.last, input.event->now_nanos);
    }
    if s.task.phase is Storing {
        let a = s.pending->0;
        assert(t.inserted[n] == a);
        assert forall|i: int, j: int| 0 <= i < j < t.inserted.len() implies (
        #[trigger] t.inserted[i]).stamp.before((#[trigger] t.inserted[j]).stamp) by {
            if j == n && i < n - 1 {
                assert(s.inserted[i].stamp.before(s.inserted[n - 1].stamp));
            }
        }
        assert forall|i: int| 0 <= i < t.inserted.len() implies t.table.contains_pair(
            (#[trigger] t.inserted[i]).entry().key,
            t.inserted[i].entry().value,
        ) by {
            if i < n {
                assert(t.inserted[i].stamp.before(t.inserted[n].stamp));
                relay::lemma_stamp_order_is_key_order(t.inserted[i].stamp, a.stamp);
                assert(t.inserted[i] == s.inserted[i]);
            }
        }
    }
    assert forall|k: Seq<u8>| #[trigger] t.wrote(k) || untouched(earlier, t.table, k) by {
        if s.wrote(k) {
            let i = choose|i: int| 0 <= i < n && (#[trigger] s.inserted[i]).entry().key == k;
            assert(t.inserted[i] == s.inserted[i]);
        } else if t.inserted.len() > n {
            assert(t.inserted[n] == s.pending->0);
        }
    }
}

proof fn lemma_intake_run(earlier: Map<Seq<u8>, Seq<u8>>, inputs: Seq<IntakeInput>)
    requires
        all_stored(inputs),
        intake_run(Intake::start(earlier), inputs) matches Some(t) && t.chunks.len() <= u64::MAX,
    ensures
        (intake_run(Intake::start(earlier), inputs)->0).inv(earlier),
    decreases inputs.len(),
{
    if inputs.len() > 0 {
        let before = inputs.drop_last();
        assert forall|i: int| 0 <= i < before.len() implies ((#[trigger] before[i]).event matches
            ingest::IngestEventView::Stored { error } ==> error is None) by {
            assert(before[i] == inputs[i]);
        }
        assert(inputs.last() == inputs[inputs.len() - 1]);
        lemma_intake_run(earlier, before);
        lemma_intake_step(
            intake_run(Intake::start(earlier), before)->0,
            inputs.last(),
            earlier,
        );
    }
}

/// Each chunk becomes one record: where no insert fails and at most 2^64 - 1 chunks
/// are read, over a store that held anything before, one record has been inserted for
/// each chunk read, but for one that may be under way. Their keys ascend strictly in
/// the order in which the chunks were read, behind the header of each value stands
/// its chunk, the store holds them all, every record under another key is as it was,
/// and the audit log got nothing.
pub proof fn law_each_chunk_is_one_record(
    earlier: Map<Seq<u8>, Seq<u8>>,
    inputs: Seq<IntakeInput>,
)
    requires
        all_stored(inputs),
        intake_run(Intake::start(earlier), inputs) matches Some(t) && t.chunks.len() <= u64::MAX,
    ensures
        ({
            let t = intake_run(Intake::start(earlier), inputs)->0;
            &&& t.chunks == read_chunks(inputs)
            &&& t.inserted.len() == t.chunks.len() - t.under_way()
            &&& forall|i: int|
                0 <= i < t.inserted.len() ==> {
                    let e = (#[trigger] t.inserted[i]).entry();
                    &&& t.table.contains_pair(e.key, e.value)
                    &&& e.value.skip(record::HEADER_LEN as int) == t.chunks[i]
                    &&& t.chunks[i].len() < 0x1_0000_0000 ==> record::message_of(e.value)
                        == t.chunks[i]
                }
            &&& forall|i: int, j: int|
                0 <= i < j < t.inserted.len() ==> bytes::bytes_less(
                    (#[trigger] t.inserted[i]).entry().key,
                    (#[trigger] t.inserted[j]).entry().key,
                )
            &&& forall|k: Seq<u8>|
                !#[trigger] t.wrote(k) ==> untouched(earlier, t.table, k)
            &&& t.audited.len() == 0
        }),
{
    lemma_intake_run(earlier, inputs);
    lemma_chunks_read(earlier, inputs);
    let t = intake_run(Intake::start(earlier), inputs)->0;
    assert forall|i: int| 0 <= i < t.inserted.len() implies {
        let e = (#[trigger] t.inserted[i]).entry();
        &&& t.table.contains_pair(e.key, e.value)
        &&& e.value.skip(record::HEADER_LEN as int) == t.chunks[i]
        &&& t.chunks[i].len() < 0x1_0000_0000 ==> record::message_of(e.value) == t.chunks[i]
    } by {
        let a = t.inserted[i];
        record::law_message_behind_header(a.stamp.ts_ns, a.message);
        if a.message.len() < 0x1_0000_0000 {
            record::law_message_round_trip(a.stamp.ts_ns, a.message);
        }
    }
    assert forall|i: int, j: int| 0 <= i < j < t.inserted.len() implies bytes::bytes_less(
        (#[trigger] t.inserted[i]).entry().key,
        (#[trigger] t.inserted[j]).entry().key,
    ) by {
        relay::lemma_stamp_order_is_key_order(t.inserted[i].stamp, t.inserted[j].stamp);
    }
}

/// The chunk that an answer brings: what was read, unless reading failed or nothing
/// was read.
pub open spec fn chunk_in(event: ingest::IngestEventView) -> Seq<Seq<u8>> {
    match event {
        ingest::IngestEventView::Received { data: Some(data) } => if data.len() > 0 {
            seq![data]
        } else {
            Seq::empty()
        },
        _ => Seq::empty(),
    }
}

/// The chunks that answers bring, in order.
pub open spec fn read_chunks(inputs: Seq<IntakeInput>) -> Seq<Seq<u8>>
    decreases inputs.len(),
{
    if inputs.len() == 0 {
        Seq::empty()
    } else {
        read_chunks(inputs.drop_last()) + chunk_in(inputs.last().event)
    }
}

proof fn lemma_chunks_read(earlier: Map<Seq<u8>, Seq<u8>>, inputs: Seq<IntakeInput>)
    ensures
        intake_run(Intake::start(earlier), inputs) matches Some(t) ==> t.chunks == read_chunks(
            inputs,
        ),
    decreases inputs.len(),
{
    if inputs.len() > 0 {
        lemma_chunks_read(earlier, inputs.drop_last());
        if let Some(t) = intake_run(Intake::start(earlier), inputs) {
            assert(t.chunks =~= read_chunks(inputs));
        }
    }
}

/// The chunks that reach the relay in a run, in order.
pub open spec fn relay_chunks(inputs: Seq<relay::RelayInput>) -> Seq<Seq<u8>>
    decreases inputs.len(),
{
    if inputs.len() == 0 {
        Seq::empty()
    } else {
        relay_chunks(inputs.drop_last()) + match inputs.last() {
            relay::RelayInput::Ingest { event } => chunk_in(event),
            _ => Seq::empty(),
        }
    }
}

/// The chunk that is read and waits for its stamp.
pub open spec fn unstamped(s: relay::RelayState) -> Seq<Seq<u8>> {
    match s.ingest.phase {
        ingest::PhaseView::Stamping { data } => seq![data],
        _ => Seq::empty(),
    }
}

/// What arrives is what is read: in any run of the relay, the messages that have
/// arrived are the backlog and then the chunks that were read, unchanged, in order,
/// each once, but for one that may wait for its stamp.
pub proof fn law_run_arrivals_are_chunks(
    setup: relay::RelaySetup,
    backlog: Seq<relay::Arrival>,
    inputs: Seq<relay::RelayInput>,
)
    ensures
        relay::run(relay::RelayState::start(setup, backlog), inputs) matches Some(t)
            ==> delivery::messages_of(t.arrivals) + unstamped(t)
            == delivery::messages_of(backlog) + relay_chunks(inputs),
    decreases inputs.len(),
{
    let start = relay::RelayState::start(setup, backlog);
    if inputs.len() > 0 {
        law_run_arrivals_are_chunks(setup, backlog, inputs.drop_last());
        if let Some(t) = relay::run(start, inputs) {
            let s = relay::run(start, inputs.drop_last())->0;
            let chunk = match inputs.last() {
                relay::RelayInput::Ingest { event } => chunk_in(event),
                _ => Seq::empty(),
            };
            assert(delivery::messages_of(t.arrivals) + unstamped(t)
                =~= delivery::messages_of(s.arrivals) + unstamped(s) + chunk);
        }
    }
}

} // verus!
