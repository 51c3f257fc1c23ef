//! The relay as a whole: ingestion, egress and the disk guard around one queue, in
//! any interleaving, with inserts and removals that take effect at any moment
//! between the request and its answer, or fail.
//!
//! The queue is an ordered table on disk that lists its entries in ascending byte
//! order of keys. This module models it, and shows what the tasks together promise:
//! a message is in the queue until the server has accepted a request that carried
//! it, each batch holds the messages that arrived first of what is left, and a full
//! queue stops ingestion.

use vstd::prelude::*;

use crate::bytes;
use crate::clock;
use crate::config::ForwarderConfig;
use crate::disk_guard;
use crate::egress;
use crate::ingest;
use crate::record;

verus! {

/// A message that was handed to the queue.
pub struct Arrival {
    pub stamp: clock::Stamp,
    pub message: Seq<u8>,
}

impl Arrival {
    /// The entry that carries the message.
    pub open spec fn entry(self) -> record::EntryView {
        record::EntryView {
            key: self.stamp.key(),
            value: record::value_bytes(self.stamp.ts_ns, self.message),
        }
    }
}

/// Arrivals in the order of their stamps.
pub open spec fn in_stamp_order(arrivals: Seq<Arrival>) -> bool {
    forall|i: int, j: int|
        0 <= i < j < arrivals.len() ==> (#[trigger] arrivals[i]).stamp.before(
            (#[trigger] arrivals[j]).stamp,
        )
}

/// No two arrivals have the same stamp.
pub open spec fn distinct_stamps(arrivals: Seq<Arrival>) -> bool {
    forall|i: int, j: int|
        0 <= i < j < arrivals.len() ==> (#[trigger] arrivals[i]).stamp != (
        #[trigger] arrivals[j]).stamp
}

/// `batch` holds the entries of `table` with the smallest keys, in ascending order
/// of keys, at most `limit` of them.
pub open spec fn is_oldest(
    table: Map<Seq<u8>, Seq<u8>>,
    limit: usize,
    batch: Seq<record::EntryView>,
) -> bool {
    &&& batch.len() <= limit
    &&& forall|i: int|
        0 <= i < batch.len() ==> table.contains_pair((#[trigger] batch[i]).key, batch[i].value)
    &&& forall|i: int, j: int|
        0 <= i < j < batch.len() ==> bytes::bytes_less(
            (#[trigger] batch[i]).key,
            (#[trigger] batch[j]).key,
        )
    &&& forall|i: int, k: Seq<u8>|
        0 <= i < batch.len() && #[trigger] table.contains_key(k) && !record::batch_keys(
            batch,
        ).contains(k) ==> bytes::bytes_less((#[trigger] batch[i]).key, k)
}

/// A request: the entries whose messages it carries, and its body.
pub struct Request {
    pub entries: Seq<record::EntryView>,
    pub body: Seq<u8>,
}

impl Request {
    /// The entry under key `k` is among those that the request carries.
    pub open spec fn carries(self, k: Seq<u8>) -> bool {
        record::batch_keys(self.entries).contains(k)
    }
}

/// What happens next to the relay.
pub enum RelayInput {
    /// The ingestion task gets an answer.
    Ingest { event: ingest::IngestEventView },
    /// The insert under way takes effect.
    Commit,
    /// The egress task gets an answer.
    Egress { event: egress::EgressEventView },
    /// The removal under way takes effect.
    Purge,
    /// The disk guard finds the queue at a size of `disk` bytes.
    Check { disk: u64 },
}

/// What the relay runs under.
pub struct RelaySetup {
    pub forwarder: ForwarderConfig,
    pub limits: disk_guard::DiskLimitsView,
}

/// The tasks, the queue, and what has happened so far.
pub struct RelayState {
    pub ingest: ingest::IngestState,
    pub egress: egress::EgressState,
    /// When the disk guard closes the ingest gate, and whether it is closed.
    pub limits: disk_guard::DiskLimitsView,
    pub paused: bool,
    /// The queue.
    pub table: Map<Seq<u8>, Seq<u8>>,
    /// The insert that was asked for and has not taken effect.
    pub pending: Option<record::EntryView>,
    /// The removal that was asked for and has not taken effect.
    pub removing: Option<Seq<Seq<u8>>>,
    /// All messages handed to the queue, in order. The first `backlog` of them were
    /// in the queue when the relay started.
    pub arrivals: Seq<Arrival>,
    pub backlog: nat,
    /// Keys whose insert was answered with an error.
    pub failed: Set<Seq<u8>>,
    /// Places among the arrivals of the messages that the queue has taken, in the
    /// order in which it took them.
    pub taken: Seq<int>,
    /// The request that waits for an answer.
    pub request: Option<Request>,
    /// The requests that the server has accepted, in the order of sending.
    pub accepted: Seq<Request>,
    /// Keys of the entries in requests that the server has accepted.
    pub delivered: Set<Seq<u8>>,
}

impl RelayState {
    /// The relay at its start, with the messages of `backlog` in the queue.
    pub open spec fn start(setup: RelaySetup, backlog: Seq<Arrival>) -> RelayState {
        RelayState {
            ingest: ingest::IngestState::initial(),
            egress: egress::EgressState::initial(setup.forwarder),
            limits: setup.limits,
            paused: false,
            table: table_of(backlog),
            pending: None,
            removing: None,
            arrivals: backlog,
            backlog: backlog.len(),
            failed: Set::empty(),
            taken: Seq::new(backlog.len(), |i: int| i),
            request: None,
            accepted: Seq::empty(),
            delivered: Set::empty(),
        }
    }

    /// The relay after the ingestion task has got an answer. An insert that is
    /// answered without an error has taken effect.
    pub open spec fn after_ingest(self, event: ingest::IngestEventView) -> Option<RelayState> {
        match self.ingest.next(event, self.paused) {
            None => None,
            Some((task, action)) => if self.pending is Some && event
                == (ingest::IngestEventView::Stored { error: None }) {
                None
            } else {
                Some(
                    RelayState {
                        ingest: task,
                        pending: match action {
                            ingest::IngestActionView::Store { key, value } => Some(
                                record::EntryView { key, value },
                            ),
                            _ => if event is Stored {
                                None
                            } else {
                                self.pending
                            },
                        },
                        arrivals: match self.ingest.phase {
                            ingest::PhaseView::Stamping { data } => self.arrivals.push(
                                Arrival { stamp: task.last, message: data },
                            ),
                            _ => self.arrivals,
                        },
                        failed: match event {
                            ingest::IngestEventView::Stored { error: Some(_) } => self.failed.insert(
                                self.ingest.last.key(),
                            ),
                            _ => self.failed,
                        },
                        ..self
                    },
                )
            },
        }
    }

    /// The relay after the egress task has got an answer. A batch that it gets
    /// holds the oldest entries of the queue.
    pub open spec fn after_egress(self, event: egress::EgressEventView) -> Option<RelayState> {
        match self.egress.next(event) {
            None => None,
            Some((task, action)) => if event matches egress::EgressEventView::Batch { entries }
                && !is_oldest(self.table, self.egress.batch_size, entries) {
                None
            } else {
                Some(
                    RelayState {
                        egress: task,
                        removing: match action {
                            egress::EgressActionView::Remove { keys } => Some(keys),
                            _ => None,
                        },
                        request: match (event, action) {
                            (
                                egress::EgressEventView::Batch { entries },
                                egress::EgressActionView::Post { body },
                            ) => Some(Request { entries, body }),
                            _ => None,
                        },
                        accepted: match (event, self.request) {
                            (
                                egress::EgressEventView::Response { status },
                                Some(request),
                            ) => if egress::accepted(status) {
                                self.accepted.push(request)
                            } else {
                                self.accepted
                            },
                            _ => self.accepted,
                        },
                        delivered: match action {
                            egress::EgressActionView::Remove { keys } => self.delivered.union(
                                keys.to_set(),
                            ),
                            _ => self.delivered,
                        },
                        ..self
                    },
                )
            },
        }
    }

    /// The relay after `input`, or `None` where that cannot happen.
    pub open spec fn after(self, input: RelayInput) -> Option<RelayState> {
        match input {
            RelayInput::Ingest { event } => self.after_ingest(event),
            RelayInput::Egress { event } => self.after_egress(event),
            RelayInput::Commit => match self.pending {
                Some(e) => Some(
                    RelayState {
                        table: self.table.insert(e.key, e.value),
                        pending: None,
                        taken: self.taken.push(self.arrivals.len() - 1),
                        ..self
                    },
                ),
                None => None,
            },
            RelayInput::Purge => match self.removing {
                Some(keys) => Some(
                    RelayState {
                        table: self.table.remove_keys(keys.to_set()),
                        removing: None,
                        ..self
                    },
                ),
                None => None,
            },
            RelayInput::Check { disk } => Some(
                RelayState { paused: self.limits.gate_after(self.paused, disk), ..self },
            ),
        }
    }

    /// If the input is the time at which a message arrived, the message gets a stamp
    /// that no earlier one has.
    pub open spec fn fresh(self, input: RelayInput) -> bool {
        input matches RelayInput::Ingest {
            event: ingest::IngestEventView::Clock { now_nanos },
        } ==> forall|i: int|
            0 <= i < self.arrivals.len() ==> (#[trigger] self.arrivals[i]).stamp
                != self.ingest.last.successor(now_nanos)
    }

    /// If the input is the time at which a message arrived, fewer than 2^64 - 1
    /// messages have arrived before it since the start, and if it is the first one
    /// since the start, it is later than the whole backlog.
    pub open spec fn timely(self, input: RelayInput) -> bool {
        input matches RelayInput::Ingest {
            event: ingest::IngestEventView::Clock { now_nanos },
        } ==> {
            &&& self.arrivals.len() - self.backlog < u64::MAX
            &&& 0 < self.backlog == self.arrivals.len() ==> now_nanos as nat
                % 0x1_0000_0000_0000_0000 > self.arrivals.last().stamp.ts_ns
        }
    }

    /// `e` is the entry of a message that arrived.
    pub open spec fn arrived(self, e: record::EntryView) -> bool {
        exists|a: int| 0 <= a < self.arrivals.len() && (#[trigger] self.arrivals[a]).entry() == e
    }

    /// The server has accepted a request that carried `e`, with the messages of its
    /// entries as its body.
    pub open spec fn sent(self, e: record::EntryView) -> bool {
        exists|m: int|
            0 <= m < self.accepted.len() && (#[trigger] self.accepted[m]).entries.contains(e)
                && self.accepted[m].body == record::payload(self.accepted[m].entries)
    }

    /// Message `i` is accounted for: it waits in the queue, its insert is under way
    /// or was answered with an error, or the server has accepted a request that
    /// carried it.
    pub open spec fn accounted(self, i: int) -> bool {
        let e = self.arrivals[i].entry();
        ||| self.table.contains_pair(e.key, e.value)
        ||| self.pending == Some(e)
        ||| self.failed.contains(e.key)
        ||| self.sent(e)
    }

    /// What holds of the sending side at any moment, whatever the clock does.
    pub open spec fn egress_inv(self) -> bool {
        // The task remembers the keys of the request under way.
        &&& self.egress.phase matches egress::PhaseView::Sending { keys } ==> {
            &&& self.request matches Some(r)
            &&& keys == record::batch_keys(r.entries)
            &&& r.body == record::payload(r.entries)
        }
        // A request carries the messages of its entries.
        &&& forall|i: int|
            0 <= i < self.accepted.len() ==> (#[trigger] self.accepted[i]).body == record::payload(
                self.accepted[i].entries,
            )
        // What was delivered was in an accepted request.
        &&& forall|k: Seq<u8>| #[trigger]
            self.delivered.contains(k) ==> exists|i: int|
                0 <= i < self.accepted.len() && (#[trigger] self.accepted[i]).carries(k)
        // Only what was delivered is being removed.
        &&& self.removing matches Some(keys) ==> {
            &&& self.egress.phase is Pausing
            &&& keys.to_set().subset_of(self.delivered)
        }
    }

    /// What holds of the relay at any moment, as long as no two messages get the same
    /// stamp.
    pub open spec fn sound(self) -> bool {
        &&& self.egress_inv()
        &&& distinct_stamps(self.arrivals)
        &&& self.ingest.phase is Storing ==> self.arrivals.len() > 0
            && self.arrivals.last().stamp == self.ingest.last
        // The insert under way is that of the last message.
        &&& self.pending matches Some(e) ==> {
            &&& self.ingest.phase is Storing
            &&& e == self.arrivals.last().entry()
            &&& !self.table.contains_key(e.key)
        }
        // The queue holds nothing but messages that arrived, and so do requests.
        &&& forall|k: Seq<u8>| #[trigger]
            self.table.contains_key(k) ==> self.arrived(
                record::EntryView { key: k, value: self.table[k] },
            )
        &&& self.request matches Some(r) ==> forall|j: int|
            0 <= j < r.entries.len() ==> self.arrived(#[trigger] r.entries[j])
        &&& forall|m: int, j: int|
            0 <= m < self.accepted.len() && 0 <= j < self.accepted[m].entries.len()
                ==> self.arrived(#[trigger] self.accepted[m].entries[j])
        // Nothing is lost.
        &&& forall|i: int| 0 <= i < self.arrivals.len() ==> #[trigger] self.accounted(i)
    }

    /// What holds of the relay at any moment of a timely run.
    pub open spec fn inv(self) -> bool {
        &&& self.sound()
        &&& self.backlog <= self.arrivals.len()
        &&& in_stamp_order(self.arrivals)
        // The clock stands at the last message of this run.
        &&& self.ingest.last == if self.arrivals.len() == self.backlog {
            clock::Stamp::zero()
        } else {
            self.arrivals.last().stamp
        }
        &&& self.ingest.last.ctr <= self.arrivals.len() - self.backlog
    }
}

/// The queue that holds the messages of `arrivals`.
pub open spec fn table_of(arrivals: Seq<Arrival>) -> Map<Seq<u8>, Seq<u8>>
    decreases arrivals.len(),
{
    if arrivals.len() == 0 {
        Map::empty()
    } else {
        let e = arrivals.last().entry();
        table_of(arrivals.drop_last()).insert(e.key, e.value)
    }
}

/// Stamps are ordered as the keys they give.
pub proof fn lemma_stamp_order_is_key_order(a: clock::Stamp, b: clock::Stamp)
    ensures
        bytes::bytes_less(a.key(), b.key()) <==> a.before(b),
        a.key() == b.key() ==> a == b,
{
    record::law_key_order(a.ts_ns, a.ctr, b.ts_ns, b.ctr);
    if a.key() == b.key() {
        record::law_key_injective(a.ts_ns, a.ctr, b.ts_ns, b.ctr);
    }
}

proof fn lemma_order_is_distinct(arrivals: Seq<Arrival>)
    requires
        in_stamp_order(arrivals),
    ensures
        distinct_stamps(arrivals),
{
}

/// Two arrivals with the same key are one.
pub proof fn lemma_same_key_same_arrival(arrivals: Seq<Arrival>, a: int, b: int)
    requires
        distinct_stamps(arrivals),
        0 <= a < arrivals.len(),
        0 <= b < arrivals.len(),
        arrivals[a].entry().key == arrivals[b].entry().key,
    ensures
        a == b,
{
    lemma_stamp_order_is_key_order(arrivals[a].stamp, arrivals[b].stamp);
    if a < b {
        assert(arrivals[a].stamp != arrivals[b].stamp);
    } else if b < a {
        assert(arrivals[b].stamp != arrivals[a].stamp);
    }
}

proof fn lemma_table_of(arrivals: Seq<Arrival>)
    requires
        distinct_stamps(arrivals),
    ensures
        forall|i: int|
            0 <= i < arrivals.len() ==> table_of(arrivals).contains_pair(
                (#[trigger] arrivals[i]).entry().key,
                arrivals[i].entry().value,
            ),
        forall|k: Seq<u8>| #[trigger]
            table_of(arrivals).contains_key(k) ==> exists|i: int|
                0 <= i < arrivals.len() && (#[trigger] arrivals[i]).entry() == (record::EntryView {
                    key: k,
                    value: table_of(arrivals)[k],
                }),
    decreases arrivals.len(),
{
    if arrivals.len() > 0 {
        let earlier = arrivals.drop_last();
        let table = table_of(arrivals);
        let last = arrivals.last();
        assert forall|i: int, j: int| 0 <= i < j < earlier.len() implies (
        #[trigger] earlier[i]).stamp != (#[trigger] earlier[j]).stamp by {
            assert(earlier[i] == arrivals[i] && earlier[j] == arrivals[j]);
        }
        lemma_table_of(earlier);
        assert forall|i: int| 0 <= i < arrivals.len() implies table.contains_pair(
            (#[trigger] arrivals[i]).entry().key,
            arrivals[i].entry().value,
        ) by {
            if i < earlier.len() {
                assert(earlier[i] == arrivals[i]);
                if arrivals[i].entry().key == last.entry().key {
                    lemma_same_key_same_arrival(arrivals, i, arrivals.len() - 1);
                }
            }
        }
        assert forall|k: Seq<u8>| #[trigger] table.contains_key(k) implies exists|i: int|
            0 <= i < arrivals.len() && (#[trigger] arrivals[i]).entry() == (record::EntryView {
                key: k,
                value: table[k],
            }) by {
            if k == last.entry().key {
                assert(arrivals[arrivals.len() - 1] == last);
            } else {
                assert(table_of(earlier).contains_key(k));
                let i = choose|i: int|
                    0 <= i < earlier.len() && (#[trigger] earlier[i]).entry() == (
                    record::EntryView { key: k, value: table_of(earlier)[k] });
                assert(arrivals[i] == earlier[i]);
            }
        }
    }
}

/// The relay starts soundly, whatever backlog of distinct messages it finds.
pub proof fn law_sound_start(setup: RelaySetup, backlog: Seq<Arrival>)
    requires
        distinct_stamps(backlog),
    ensures
        RelayState::start(setup, backlog).sound(),
{
    lemma_table_of(backlog);
    let s = RelayState::start(setup, backlog);
    assert forall|k: Seq<u8>| #[trigger] s.table.contains_key(k) implies s.arrived(
        record::EntryView { key: k, value: s.table[k] },
    ) by {
        assert(table_of(backlog).contains_key(k));
    }
    assert forall|i: int| 0 <= i < s.arrivals.len() implies #[trigger] s.accounted(i) by {
        assert(s.arrivals[i] == backlog[i]);
    }
}

/// The relay starts in order, with whatever backlog an earlier run has left in order.
pub proof fn law_start(setup: RelaySetup, backlog: Seq<Arrival>)
    requires
        in_stamp_order(backlog),
    ensures
        RelayState::start(setup, backlog).inv(),
{
    lemma_order_is_distinct(backlog);
    law_sound_start(setup, backlog);
}

/// Whatever happens keeps the sending side in order.
pub proof fn law_egress_step(s: RelayState, input: RelayInput)
    requires
        s.egress_inv(),
        s.after(input) is Some,
    ensures
        (s.after(input)->0).egress_inv(),
{
    let t = s.after(input)->0;
    assert forall|k: Seq<u8>| #[trigger] t.delivered.contains(k) implies exists|i: int|
        0 <= i < t.accepted.len() && (#[trigger] t.accepted[i]).carries(k) by {
        if s.delivered.contains(k) {
            let i = choose|i: int|
                0 <= i < s.accepted.len() && (#[trigger] s.accepted[i]).carries(k);
            assert(t.accepted[i] == s.accepted[i]);
        } else {
            assert(t.accepted[s.accepted.len() as int].carries(k));
        }
    }
}

/// Arrivals and accepted requests are only ever added to.
pub open spec fn extends(s: RelayState, t: RelayState) -> bool {
    &&& s.arrivals.is_prefix_of(t.arrivals)
    &&& s.accepted.is_prefix_of(t.accepted)
}

proof fn lemma_step_extends(s: RelayState, input: RelayInput)
    requires
        s.after(input) is Some,
    ensures
        extends(s, s.after(input)->0),
{
}

proof fn lemma_extends(s: RelayState, t: RelayState, e: record::EntryView)
    requires
        extends(s, t),
    ensures
        s.arrived(e) ==> t.arrived(e),
        s.sent(e) ==> t.sent(e),
{
    if s.arrived(e) {
        let a = choose|a: int|
            0 <= a < s.arrivals.len() && (#[trigger] s.arrivals[a]).entry() == e;
        assert(t.arrivals[a] == s.arrivals[a]);
    }
    if s.sent(e) {
        let m = choose|m: int|
            0 <= m < s.accepted.len() && (#[trigger] s.accepted[m]).entries.contains(e)
                && s.accepted[m].body == record::payload(s.accepted[m].entries);
        assert(t.accepted[m] == s.accepted[m]);
    }
}

/// A message whose key was delivered was sent itself.
pub proof fn lemma_delivered_is_sent(s: RelayState, i: int)
    requires
        s.sound(),
        0 <= i < s.arrivals.len(),
        s.delivered.contains(s.arrivals[i].entry().key),
    ensures
        s.sent(s.arrivals[i].entry()),
{
    let e = s.arrivals[i].entry();
    let m = choose|m: int| 0 <= m < s.accepted.len() && (#[trigger] s.accepted[m]).carries(e.key);
    let entries = s.accepted[m].entries;
    let j = choose|j: int| 0 <= j < entries.len() && record::batch_keys(entries)[j] == e.key;
    assert(entries[j].key == e.key);
    assert(s.arrived(s.accepted[m].entries[j]));
    let b = choose|b: int|
        0 <= b < s.arrivals.len() && (#[trigger] s.arrivals[b]).entry() == entries[j];
    lemma_same_key_same_arrival(s.arrivals, i, b);
    assert(entries.contains(e));
}

/// Whatever happens keeps the relay sound, as long as stamps are fresh.
#[verifier::rlimit(40)]
pub proof fn law_sound_step(s: RelayState, input: RelayInput)
    requires
        s.sound(),
        s.fresh(input),
        s.after(input) is Some,
    ensures
        (s.after(input)->0).sound(),
{
    let t = s.after(input)->0;
    let n = s.arrivals.len() as int;
    law_egress_step(s, input);
    lemma_step_extends(s, input);
    assert forall|i: int| 0 <= i < n implies #[trigger] t.arrivals[i] == s.arrivals[i] by {}
    assert(t.arrivals.len() > n ==> s.ingest.phase is Stamping && input is Ingest);

    assert(distinct_stamps(t.arrivals)) by {
        assert forall|i: int, j: int| 0 <= i < j < t.arrivals.len() implies (
        #[trigger] t.arrivals[i]).stamp != (#[trigger] t.arrivals[j]).stamp by {
            assert(t.arrivals[i] == s.arrivals[i]);
            if j < n {
                assert(t.arrivals[j] == s.arrivals[j]);
            }
        }
    }

    if t.pending is Some && s.pending is None {
        let e = t.pending->0;
        assert(e == t.arrivals[n].entry());
        if s.table.contains_key(e.key) {
            let x = record::EntryView { key: e.key, value: s.table[e.key] };
            assert(s.arrived(x));
            let a = choose|a: int|
                0 <= a < s.arrivals.len() && (#[trigger] s.arrivals[a]).entry() == x;
            assert(t.arrivals[a] == s.arrivals[a]);
            lemma_same_key_same_arrival(t.arrivals, a, n);
        }
    }

    assert forall|k: Seq<u8>| #[trigger] t.table.contains_key(k) implies t.arrived(
        record::EntryView { key: k, value: t.table[k] },
    ) by {
        let x = record::EntryView { key: k, value: t.table[k] };
        if s.pending matches Some(e) && input is Commit && k == e.key {
            assert(t.arrivals[n - 1].entry() == x);
        } else {
            assert(s.table.contains_key(k));
            assert(t.table[k] == s.table[k]);
            lemma_extends(s, t, x);
        }
    }

    if let Some(r) = t.request {
        assert forall|j: int| 0 <= j < r.entries.len() implies t.arrived(
            #[trigger] r.entries[j],
        ) by {
            if s.request == Some(r) {
                assert(s.arrived(r.entries[j]));
            } else {
                let x = r.entries[j];
                assert(s.table.contains_pair(x.key, x.value));
                assert(s.table.contains_key(x.key));
                assert(x == (record::EntryView { key: x.key, value: s.table[x.key] }));
            }
            lemma_extends(s, t, r.entries[j]);
        }
    }

    assert forall|m: int, j: int|
        0 <= m < t.accepted.len() && 0 <= j < t.accepted[m].entries.len() implies t.arrived(
        #[trigger] t.accepted[m].entries[j],
    ) by {
        let x = t.accepted[m].entries[j];
        if m < s.accepted.len() {
            assert(t.accepted[m] == s.accepted[m]);
            assert(s.arrived(s.accepted[m].entries[j]));
        } else {
            let r = s.request->0;
            assert(t.accepted[m] == r);
            assert(s.arrived(r.entries[j]));
        }
        lemma_extends(s, t, x);
    }

    assert forall|i: int| 0 <= i < t.arrivals.len() implies #[trigger] t.accounted(i) by {
        if i < n {
            let e = s.arrivals[i].entry();
            assert(t.arrivals[i] == s.arrivals[i]);
            assert(s.accounted(i));
            lemma_extends(s, t, e);
            if s.table.contains_pair(e.key, e.value) && !t.table.contains_pair(e.key, e.value) {
                if input is Purge {
                    assert(s.delivered.contains(e.key));
                    lemma_delivered_is_sent(s, i);
                } else {
                    assert(input is Commit && s.pending->0.key == e.key);
                    assert(s.table.contains_key(e.key));
                }
            }
        }
    }
}

/// A timely input brings a fresh stamp, later than all before it.
proof fn lemma_timely_is_fresh(s: RelayState, now_nanos: u128)
    requires
        s.inv(),
        s.timely(RelayInput::Ingest { event: ingest::IngestEventView::Clock { now_nanos } }),
    ensures
        s.fresh(RelayInput::Ingest { event: ingest::IngestEventView::Clock { now_nanos } }),
        forall|i: int|
            0 <= i < s.arrivals.len() ==> (#[trigger] s.arrivals[i]).stamp.before(
                s.ingest.last.successor(now_nanos),
            ),
{
    let n = s.arrivals.len() as int;
    let stamp = s.ingest.last.successor(now_nanos);
    assert forall|i: int| 0 <= i < n implies (#[trigger] s.arrivals[i]).stamp.before(stamp) by {
        if s.backlog < n {
            clock::law_stamps_advance(s.ingest.last, now_nanos);
        }
        if i < n - 1 {
            assert(s.arrivals[i].stamp.before(s.arrivals[n - 1].stamp));
        }
    }
}

/// Whatever happens in time keeps the relay in order.
pub proof fn law_step(s: RelayState, input: RelayInput)
    requires
        s.inv(),
        s.timely(input),
        s.after(input) is Some,
    ensures
        s.fresh(input),
        (s.after(input)->0).inv(),
{
    let t = s.after(input)->0;
    let n = s.arrivals.len() as int;
    if let RelayInput::Ingest { event: ingest::IngestEventView::Clock { now_nanos } } = input {
        lemma_timely_is_fresh(s, now_nanos);
    }
    law_sound_step(s, input);
    assert forall|i: int, j: int| 0 <= i < j < t.arrivals.len() implies (
    #[trigger] t.arrivals[i]).stamp.before((#[trigger] t.arrivals[j]).stamp) by {
        assert(t.arrivals[i] == s.arrivals[i]);
        if j < n {
            assert(t.arrivals[j] == s.arrivals[j]);
        }
    }
}

/// The relay after one input after the other, or `None` where that cannot happen.
pub open spec fn run(s: RelayState, inputs: Seq<RelayInput>) -> Option<RelayState>
    decreases inputs.len(),
{
    if inputs.len() == 0 {
        Some(s)
    } else {
        match run(s, inputs.drop_last()) {
            Some(t) => t.after(inputs.last()),
            None => None,
        }
    }
}

/// Every stamp of a run is fresh when it is given.
pub open spec fn fresh_run(s: RelayState, inputs: Seq<RelayInput>) -> bool
    decreases inputs.len(),
{
    inputs.len() > 0 ==> {
        &&& fresh_run(s, inputs.drop_last())
        &&& run(s, inputs.drop_last()) matches Some(t) ==> t.fresh(inputs.last())
    }
}

/// Every input of a run is timely when it comes.
pub open spec fn timely_run(s: RelayState, inputs: Seq<RelayInput>) -> bool
    decreases inputs.len(),
{
    inputs.len() > 0 ==> {
        &&& timely_run(s, inputs.drop_last())
        &&& run(s, inputs.drop_last()) matches Some(t) ==> t.timely(inputs.last())
    }
}

/// At any moment of any run whose stamps are fresh, every message that arrived waits
/// in the queue, is being inserted, was answered with an insert error, or was in a
/// request that the server has accepted. The queue holds nothing else.
pub proof fn law_run_sound(setup: RelaySetup, backlog: Seq<Arrival>, inputs: Seq<RelayInput>)
    requires
        distinct_stamps(backlog),
        fresh_run(RelayState::start(setup, backlog), inputs),
    ensures
        run(RelayState::start(setup, backlog), inputs) matches Some(t) ==> t.sound(),
    decreases inputs.len(),
{
    if inputs.len() == 0 {
        law_sound_start(setup, backlog);
    } else {
        law_run_sound(setup, backlog, inputs.drop_last());
        if let Some(t) = run(RelayState::start(setup, backlog), inputs.drop_last()) {
            if t.after(inputs.last()) is Some {
                law_sound_step(t, inputs.last());
            }
        }
    }
}

/// Stamps of a timely run are fresh, and the order of its keys is the order of
/// arrival.
pub proof fn law_run(setup: RelaySetup, backlog: Seq<Arrival>, inputs: Seq<RelayInput>)
    requires
        in_stamp_order(backlog),
        timely_run(RelayState::start(setup, backlog), inputs),
    ensures
        run(RelayState::start(setup, backlog), inputs) matches Some(t) ==> t.inv() && fresh_run(
            RelayState::start(setup, backlog),
            inputs,
        ),
    decreases inputs.len(),
{
    if inputs.len() == 0 {
        law_start(setup, backlog);
    } else {
        law_run(setup, backlog, inputs.drop_last());
        if let Some(t) = run(RelayState::start(setup, backlog), inputs.drop_last()) {
            if t.after(inputs.last()) is Some {
                law_step(t, inputs.last());
            }
        }
    }
}

/// At any moment of any run, whatever the clock does and whatever the queue held
/// at the start, the sending side is in order.
pub proof fn law_egress_run(setup: RelaySetup, backlog: Seq<Arrival>, inputs: Seq<RelayInput>)
    ensures
        run(RelayState::start(setup, backlog), inputs) matches Some(t) ==> t.egress_inv(),
    decreases inputs.len(),
{
    if inputs.len() > 0 {
        law_egress_run(setup, backlog, inputs.drop_last());
        if let Some(t) = run(RelayState::start(setup, backlog), inputs.drop_last()) {
            if t.after(inputs.last()) is Some {
                law_egress_step(t, inputs.last());
            }
        }
    }
}

/// A key leaves the queue only after the server has accepted a request that carried
/// it.
pub proof fn law_never_delete_unsent(s: RelayState, input: RelayInput, k: Seq<u8>)
    requires
        s.egress_inv(),
        s.after(input) is Some,
        s.table.contains_key(k),
        !(s.after(input)->0).table.contains_key(k),
    ensures
        s.delivered.contains(k),
{
}

proof fn lemma_prefix_of_run(start: RelayState, inputs: Seq<RelayInput>, moment: int)
    requires
        0 <= moment <= inputs.len(),
        run(start, inputs) is Some,
    ensures
        run(start, inputs.take(moment)) matches Some(s) && extends(s, run(start, inputs)->0),
        fresh_run(start, inputs) ==> fresh_run(start, inputs.take(moment)),
        timely_run(start, inputs) ==> timely_run(start, inputs.take(moment)),
    decreases inputs.len(),
{
    if moment == inputs.len() {
        assert(inputs.take(moment) =~= inputs);
    } else {
        let earlier = inputs.drop_last();
        assert(earlier.take(moment) =~= inputs.take(moment));
        lemma_prefix_of_run(start, earlier, moment);
        lemma_step_extends(run(start, earlier)->0, inputs.last());
    }
}

/// In any run, whatever the clock does and whatever the queue held at the start, a
/// key that was in the queue at some moment and is not there at a later one was in
/// a request that the server has accepted by then, and whose body was the messages
/// of its entries.
pub proof fn law_run_never_deletes_unsent_keys(
    setup: RelaySetup,
    backlog: Seq<Arrival>,
    inputs: Seq<RelayInput>,
    moment: int,
    k: Seq<u8>,
)
    requires
        0 <= moment <= inputs.len(),
        run(RelayState::start(setup, backlog), inputs) is Some,
        run(RelayState::start(setup, backlog), inputs.take(moment)) matches Some(s)
            && s.table.contains_key(k),
        !(run(RelayState::start(setup, backlog), inputs)->0).table.contains_key(k),
    ensures
        ({
            let t = run(RelayState::start(setup, backlog), inputs)->0;
            exists|i: int|
                0 <= i < t.accepted.len() && (#[trigger] t.accepted[i]).carries(k)
                    && t.accepted[i].body == record::payload(t.accepted[i].entries)
        }),
{
    lemma_left_means_delivered(setup, backlog, inputs, moment, k);
    law_egress_run(setup, backlog, inputs);
}

proof fn lemma_left_means_delivered(
    setup: RelaySetup,
    backlog: Seq<Arrival>,
    inputs: Seq<RelayInput>,
    moment: int,
    k: Seq<u8>,
)
    requires
        0 <= moment <= inputs.len(),
        run(RelayState::start(setup, backlog), inputs) is Some,
        run(RelayState::start(setup, backlog), inputs.take(moment)) matches Some(s)
            && s.table.contains_key(k),
    ensures
        ({
            let t = run(RelayState::start(setup, backlog), inputs)->0;
            t.table.contains_key(k) || t.delivered.contains(k)
        }),
    decreases inputs.len(),
{
    if moment == inputs.len() {
        assert(inputs.take(moment) =~= inputs);
    } else {
        let earlier = inputs.drop_last();
        assert(earlier.take(moment) =~= inputs.take(moment));
        lemma_left_means_delivered(setup, backlog, earlier, moment, k);
        law_egress_run(setup, backlog, earlier);
    }
}

/// Nothing unsent is ever deleted: in any run whose stamps are fresh, an entry that
/// was in the queue at some moment is still there, with its value, at any later one,
/// or the server has accepted a request by then that carried that very entry, and
/// whose body was the messages of its entries.
pub proof fn law_run_never_deletes_unsent(
    setup: RelaySetup,
    backlog: Seq<Arrival>,
    inputs: Seq<RelayInput>,
    moment: int,
    e: record::EntryView,
)
    requires
        distinct_stamps(backlog),
        fresh_run(RelayState::start(setup, backlog), inputs),
        0 <= moment <= inputs.len(),
        run(RelayState::start(setup, backlog), inputs) is Some,
        run(RelayState::start(setup, backlog), inputs.take(moment)) matches Some(s)
            && s.table.contains_pair(e.key, e.value),
    ensures
        ({
            let t = run(RelayState::start(setup, backlog), inputs)->0;
            t.table.contains_pair(e.key, e.value) || t.sent(e)
        }),
{
    let start = RelayState::start(setup, backlog);
    let s = run(start, inputs.take(moment))->0;
    let t = run(start, inputs)->0;
    lemma_prefix_of_run(start, inputs, moment);
    law_run_sound(setup, backlog, inputs.take(moment));
    law_run_sound(setup, backlog, inputs);
    assert(s.table.contains_key(e.key));
    assert(e == (record::EntryView { key: e.key, value: s.table[e.key] }));
    lemma_extends(s, t, e);
    let i = choose|i: int| 0 <= i < t.arrivals.len() && (#[trigger] t.arrivals[i]).entry() == e;
    if t.table.contains_key(e.key) {
        let x = record::EntryView { key: e.key, value: t.table[e.key] };
        assert(t.arrived(x));
        let j = choose|j: int|
            0 <= j < t.arrivals.len() && (#[trigger] t.arrivals[j]).entry() == x;
        lemma_same_key_same_arrival(t.arrivals, i, j);
    } else {
        lemma_left_means_delivered(setup, backlog, inputs, moment, e.key);
        lemma_delivered_is_sent(t, i);
    }
}

/// In any run, each accepted request was answered with a 2xx status: at some moment
/// it was the request under way, as many had been accepted before it as stand
/// before it in the list, and that answer came.
pub proof fn law_accepted_means_2xx(
    setup: RelaySetup,
    backlog: Seq<Arrival>,
    inputs: Seq<RelayInput>,
    i: int,
)
    requires
        run(RelayState::start(setup, backlog), inputs) is Some,
        0 <= i < (run(RelayState::start(setup, backlog), inputs)->0).accepted.len(),
    ensures
        ({
            let t = run(RelayState::start(setup, backlog), inputs)->0;
            exists|m: int|
                0 <= m < inputs.len() && answered_2xx(
                    #[trigger] run(RelayState::start(setup, backlog), inputs.take(m)),
                    inputs[m],
                    i,
                    t.accepted[i],
                )
        }),
    decreases inputs.len(),
{
    let start = RelayState::start(setup, backlog);
    let earlier = inputs.drop_last();
    let s = run(start, earlier)->0;
    let t = run(start, inputs)->0;
    if i < s.accepted.len() {
        law_accepted_means_2xx(setup, backlog, earlier, i);
        let m = choose|m: int|
            0 <= m < earlier.len() && answered_2xx(
                #[trigger] run(start, earlier.take(m)),
                earlier[m],
                i,
                s.accepted[i],
            );
        assert(earlier.take(m) =~= inputs.take(m));
        assert(answered_2xx(run(start, inputs.take(m)), inputs[m], i, t.accepted[i]));
    } else {
        let m = inputs.len() - 1;
        assert(inputs.take(m) =~= earlier);
        assert(answered_2xx(run(start, inputs.take(m)), inputs[m], i, t.accepted[i]));
    }
}

/// In the state `s`, with `accepted` requests accepted so far, `request` is under
/// way, and `input` is its answer with a 2xx status.
pub open spec fn answered_2xx(
    s: Option<RelayState>,
    input: RelayInput,
    accepted: int,
    request: Request,
) -> bool {
    &&& s matches Some(t) && t.accepted.len() == accepted && t.request == Some(request)
    &&& input matches RelayInput::Egress { event: egress::EgressEventView::Response { status } }
        && egress::accepted(status)
}

/// Keys count as delivered only when the server accepts the request that carried
/// their entries.
pub proof fn law_delivered_means_accepted(s: RelayState, input: RelayInput, k: Seq<u8>)
    requires
        s.after(input) is Some,
        (s.after(input)->0).delivered.contains(k),
        !s.delivered.contains(k),
    ensures
        input matches RelayInput::Egress { event: egress::EgressEventView::Response { status } }
            && egress::accepted(status),
        s.egress.phase matches egress::PhaseView::Sending { keys } && keys.contains(k),
{
}

/// The disk guard relieves pressure through the ingest gate alone: a check can always
/// come, whatever size it finds, and touches neither the queue nor anything else.
pub proof fn law_check_touches_no_record(s: RelayState, disk: u64)
    ensures
        s.after(RelayInput::Check { disk }) == Some(
            RelayState { paused: s.limits.gate_after(s.paused, disk), ..s },
        ),
        (s.after(RelayInput::Check { disk })->0).table == s.table,
{
}

/// None of the inputs is a check that finds room again.
pub open spec fn no_room_found(limits: disk_guard::DiskLimitsView, inputs: Seq<RelayInput>) -> bool {
    forall|i: int|
        0 <= i < inputs.len() ==> (#[trigger] inputs[i] matches RelayInput::Check { disk } ==> !(disk
            <= limits.resume_bytes && disk < limits.max_disk_bytes))
}

/// Once a check has found the queue at its limit, ingestion asks for no read until a
/// later check finds room again, whatever else happens meanwhile.
pub proof fn law_full_queue_stops_reads(
    s: RelayState,
    disk: u64,
    inputs: Seq<RelayInput>,
    event: ingest::IngestEventView,
)
    requires
        disk >= s.limits.max_disk_bytes,
        no_room_found(s.limits, inputs),
    ensures
        run(s.after(RelayInput::Check { disk })->0, inputs) matches Some(t) ==> {
            &&& t.paused
            &&& t.ingest.next(event, t.paused) matches Some((_, action)) ==> action !is Read
        },
{
    lemma_stays_paused(s.after(RelayInput::Check { disk })->0, inputs);
}

proof fn lemma_stays_paused(s: RelayState, inputs: Seq<RelayInput>)
    requires
        s.paused,
        no_room_found(s.limits, inputs),
    ensures
        run(s, inputs) matches Some(t) ==> t.paused && t.limits == s.limits,
    decreases inputs.len(),
{
    if inputs.len() > 0 {
        let earlier = inputs.drop_last();
        assert forall|i: int| 0 <= i < earlier.len() implies (
        #[trigger] earlier[i] matches RelayInput::Check { disk } ==> !(disk
            <= s.limits.resume_bytes && disk < s.limits.max_disk_bytes)) by {
            assert(earlier[i] == inputs[i]);
        }
        lemma_stays_paused(s, earlier);
        assert(inputs.last() == inputs[inputs.len() - 1]);
    }
}

/// Once a check has found room again, a task that was held back reads on at its next
/// look.
pub proof fn law_room_resumes_reads(s: RelayState, disk: u64)
    requires
        disk <= s.limits.resume_bytes,
        disk < s.limits.max_disk_bytes,
        s.ingest.phase is Waiting,
    ensures
        ({
            let t = s.after(RelayInput::Check { disk })->0;
            t.ingest.next(ingest::IngestEventView::Done, t.paused) matches Some((after, action))
                && after.phase is Reading && action is Read
        }),
{
}

/// The place of each entry of `batch` among the arrivals.
pub open spec fn places(arrivals: Seq<Arrival>, batch: Seq<record::EntryView>) -> Seq<int> {
    Seq::new(batch.len(), |i: int| place_of(arrivals, batch[i]))
}

/// Where `entry` stands among the arrivals.
pub open spec fn place_of(arrivals: Seq<Arrival>, entry: record::EntryView) -> int {
    choose|a: int| 0 <= a < arrivals.len() && (#[trigger] arrivals[a]).entry() == entry
}

proof fn lemma_place_of(s: RelayState, limit: usize, batch: Seq<record::EntryView>, i: int)
    requires
        s.inv(),
        is_oldest(s.table, limit, batch),
        0 <= i < batch.len(),
    ensures
        0 <= place_of(s.arrivals, batch[i]) < s.arrivals.len(),
        s.arrivals[place_of(s.arrivals, batch[i])].entry() == batch[i],
{
    assert(s.table.contains_pair(batch[i].key, batch[i].value));
    assert(s.table.contains_key(batch[i].key));
    assert(batch[i] == (record::EntryView { key: batch[i].key, value: s.table[batch[i].key] }));
}

proof fn lemma_key_order_is_arrival_order(s: RelayState, a: int, b: int)
    requires
        s.inv(),
        0 <= a < s.arrivals.len(),
        0 <= b < s.arrivals.len(),
        bytes::bytes_less(s.arrivals[a].entry().key, s.arrivals[b].entry().key),
    ensures
        a < b,
{
    let (x, y) = (s.arrivals[a].stamp, s.arrivals[b].stamp);
    lemma_stamp_order_is_key_order(x, y);
    if b < a {
        assert(y.before(x));
    }
}

/// First in, first out: a batch read from the queue holds its messages in the
/// order in which they arrived, and whatever stays behind in the queue arrived
/// after all of them.
pub proof fn law_fifo(s: RelayState, limit: usize, batch: Seq<record::EntryView>)
    requires
        s.inv(),
        is_oldest(s.table, limit, batch),
    ensures
        forall|i: int|
            0 <= i < batch.len() ==> {
                let a = #[trigger] places(s.arrivals, batch)[i];
                0 <= a < s.arrivals.len() && s.arrivals[a].entry() == batch[i]
            },
        forall|i: int, j: int|
            0 <= i < j < batch.len() ==> #[trigger] places(s.arrivals, batch)[i]
                < #[trigger] places(s.arrivals, batch)[j],
        forall|i: int, b: int|
            0 <= i < batch.len() && 0 <= b < s.arrivals.len() && s.table.contains_key(
                (#[trigger] s.arrivals[b]).entry().key,
            ) && !batch.contains(s.arrivals[b].entry()) ==> #[trigger] places(
                s.arrivals,
                batch,
            )[i] < b,
{
    let at = places(s.arrivals, batch);
    assert forall|i: int| 0 <= i < batch.len() implies {
        let a = #[trigger] at[i];
        0 <= a < s.arrivals.len() && s.arrivals[a].entry() == batch[i]
    } by {
        lemma_place_of(s, limit, batch, i);
    }
    assert forall|i: int, j: int| 0 <= i < j < batch.len() implies #[trigger] at[i]
        < #[trigger] at[j] by {
        lemma_key_order_is_arrival_order(s, at[i], at[j]);
    }
    assert forall|i: int, b: int|
        0 <= i < batch.len() && 0 <= b < s.arrivals.len() && s.table.contains_key(
            (#[trigger] s.arrivals[b]).entry().key,
        ) && !batch.contains(s.arrivals[b].entry()) implies #[trigger] at[i] < b by {
        let k = s.arrivals[b].entry().key;
        if record::batch_keys(batch).contains(k) {
            let j = choose|j: int| 0 <= j < batch.len() && record::batch_keys(batch)[j] == k;
            assert(batch[j].key == k);
            let a = at[j];
            lemma_stamp_order_is_key_order(s.arrivals[a].stamp, s.arrivals[b].stamp);
            if a < b {
                assert(s.arrivals[a].stamp.before(s.arrivals[b].stamp));
            } else if b < a {
                assert(s.arrivals[b].stamp.before(s.arrivals[a].stamp));
            }
            assert(batch[j] == s.arrivals[b].entry());
        }
        lemma_key_order_is_arrival_order(s, at[i], b);
    }
}

/// What is sent is what was received: the body of a request is the messages of its
/// batch, unchanged, one after the other in the order in which they arrived.
pub proof fn law_body_is_messages(s: RelayState, limit: usize, batch: Seq<record::EntryView>)
    requires
        s.inv(),
        is_oldest(s.table, limit, batch),
        forall|i: int|
            0 <= i < s.arrivals.len() ==> (#[trigger] s.arrivals[i]).message.len() < 0x1_0000_0000,
    ensures
        record::payload(batch) == record::concat(
            places(s.arrivals, batch).map_values(|a: int| s.arrivals[a].message),
        ),
{
    law_fifo(s, limit, batch);
    let at = places(s.arrivals, batch);
    let parts = batch.map_values(|e: record::EntryView| record::message_of(e.value));
    let messages = at.map_values(|a: int| s.arrivals[a].message);
    assert forall|i: int| 0 <= i < batch.len() implies parts[i] == messages[i] by {
        let arrival = s.arrivals[at[i]];
        assert(arrival.entry() == batch[i]);
        record::law_message_round_trip(arrival.stamp.ts_ns, arrival.message);
    }
    assert(parts =~= messages);
}

} // verus!
