//! First in, first out, over whole runs of the relay: what the server has
//! accepted, request after request, is what the queue has taken, message after
//! message; and a queue from which batches are read, accepted and removed drains.

use vstd::prelude::*;

use crate::bytes;
use crate::egress;
use crate::record;
use crate::relay;

verus! {

/// The entries of requests, one request after the other.
pub open spec fn entries_of(requests: Seq<relay::Request>) -> Seq<record::EntryView>
    decreases requests.len(),
{
    if requests.len() == 0 {
        Seq::empty()
    } else {
        entries_of(requests.drop_last()) + requests.last().entries
    }
}

/// The bodies of requests.
pub open spec fn bodies_of(requests: Seq<relay::Request>) -> Seq<Seq<u8>> {
    requests.map_values(|r: relay::Request| r.body)
}

/// The messages of arrivals.
pub open spec fn messages_of(arrivals: Seq<relay::Arrival>) -> Seq<Seq<u8>> {
    arrivals.map_values(|a: relay::Arrival| a.message)
}

/// The messages that the queue has taken, in the order in which it took them.
pub open spec fn taken_arrivals(s: relay::RelayState) -> Seq<relay::Arrival> {
    s.taken.map_values(|a: int| s.arrivals[a])
}

/// How many entries the server has accepted.
pub open spec fn sent_count(s: relay::RelayState) -> nat {
    entries_of(s.accepted).len()
}

/// How many entries have left the queue, where removals keep pace.
pub open spec fn gone_count(s: relay::RelayState) -> int {
    match s.removing {
        Some(keys) => sent_count(s) - keys.len(),
        None => sent_count(s) as int,
    }
}

/// How many messages have arrived whose insert is not under way.
pub open spec fn settled_count(s: relay::RelayState) -> int {
    if s.pending is Some {
        s.arrivals.len() - 1
    } else {
        s.arrivals.len() as int
    }
}

/// A removal that is answered has taken effect.
pub open spec fn prompt(s: relay::RelayState, input: relay::RelayInput) -> bool {
    input == (relay::RelayInput::Egress { event: egress::EgressEventView::Done }) ==> s.removing
        is None
}

/// Every removal of a run takes effect before it is answered.
pub open spec fn prompt_run(s: relay::RelayState, inputs: Seq<relay::RelayInput>) -> bool
    decreases inputs.len(),
{
    inputs.len() > 0 ==> {
        &&& prompt_run(s, inputs.drop_last())
        &&& relay::run(s, inputs.drop_last()) matches Some(t) ==> prompt(t, inputs.last())
    }
}

/// The queue takes messages in the order in which they arrive.
pub open spec fn taken_in_order(s: relay::RelayState) -> bool {
    &&& forall|i: int|
        0 <= i < s.taken.len() ==> 0 <= #[trigger] s.taken[i] < settled_count(s)
    &&& forall|i: int, j: int|
        0 <= i < j < s.taken.len() ==> #[trigger] s.taken[i] < #[trigger] s.taken[j]
    // Without insert errors it takes all of them.
    &&& s.failed == Set::<Seq<u8>>::empty() ==> s.taken == Seq::new(
        settled_count(s) as nat,
        |i: int| i,
    )
}

/// The entry of message `i` of those that the queue has taken.
pub open spec fn taken_entry(s: relay::RelayState, i: int) -> record::EntryView {
    s.arrivals[s.taken[i]].entry()
}

/// The entries of `batch` are those of the messages taken from place `from` on.
pub open spec fn follows(s: relay::RelayState, from: int, batch: Seq<record::EntryView>) -> bool {
    &&& 0 <= from
    &&& from + batch.len() <= s.taken.len()
    &&& forall|j: int| 0 <= j < batch.len() ==> #[trigger] batch[j] == taken_entry(s, from + j)
}

/// What holds at any moment of a run whose removals take effect before they are
/// answered: the messages taken first are sent, those after them are in the request
/// under way, and what is not gone yet is in the queue.
pub open spec fn in_order(s: relay::RelayState) -> bool {
    &&& s.inv()
    &&& taken_in_order(s)
    &&& follows(s, 0, entries_of(s.accepted))
    &&& s.egress.phase is Sending ==> (s.request matches Some(r) && follows(
        s,
        sent_count(s) as int,
        r.entries,
    ))
    &&& s.removing matches Some(keys) ==> {
        &&& keys.len() <= sent_count(s)
        &&& forall|j: int|
            0 <= j < keys.len() ==> #[trigger] keys[j] == taken_entry(s, gone_count(s) + j).key
    }
    &&& forall|i: int|
        gone_count(s) <= i < s.taken.len() ==> s.table.contains_pair(
            (#[trigger] taken_entry(s, i)).key,
            taken_entry(s, i).value,
        )
    &&& forall|k: Seq<u8>| #[trigger]
        s.table.contains_key(k) ==> exists|i: int|
            gone_count(s) <= i < s.taken.len() && (#[trigger] taken_entry(s, i)).key == k
}

/// Messages that the queue has taken stand in the order of their keys.
pub proof fn lemma_taken_keys(s: relay::RelayState, i: int, j: int)
    requires
        s.inv(),
        taken_in_order(s),
        0 <= i < s.taken.len(),
        0 <= j < s.taken.len(),
    ensures
        bytes::bytes_less(taken_entry(s, i).key, taken_entry(s, j).key) <==> i < j,
        taken_entry(s, i).key == taken_entry(s, j).key <==> i == j,
{
    let (a, b) = (s.arrivals[s.taken[i]].stamp, s.arrivals[s.taken[j]].stamp);
    relay::lemma_stamp_order_is_key_order(a, b);
    if i < j {
        assert(s.taken[i] < s.taken[j]);
        assert(a.before(b));
    } else if j < i {
        assert(s.taken[j] < s.taken[i]);
        assert(b.before(a));
    }
}

/// The oldest entries of the queue are those of the messages taken first of what is
/// left.
#[verifier::rlimit(40)]
proof fn lemma_oldest_follows(
    s: relay::RelayState,
    limit: usize,
    batch: Seq<record::EntryView>,
    c: int,
)
    requires
        in_order(s),
        s.removing is None,
        relay::is_oldest(s.table, limit, batch),
        0 <= c <= batch.len(),
    ensures
        follows(s, sent_count(s) as int, batch.take(c)),
    decreases c,
{
    let n = sent_count(s) as int;
    if c > 0 {
        let d = c - 1;
        lemma_oldest_follows(s, limit, batch, d);
        let e = batch[d];
        assert(s.table.contains_pair(e.key, e.value));
        assert(s.table.contains_key(e.key));
        let p = choose|i: int|
            gone_count(s) <= i < s.taken.len() && (#[trigger] taken_entry(s, i)).key == e.key;
        assert(e == taken_entry(s, p));
        if p < n + d {
            let j = p - n;
            assert(batch.take(d)[j] == taken_entry(s, n + j));
            assert(bytes::bytes_less(batch[j].key, batch[d].key));
            bytes::lemma_bytes_less_irreflexive(e.key);
        }
        if n + d < p {
            let skipped = taken_entry(s, n + d);
            assert(s.table.contains_pair(skipped.key, skipped.value));
            assert(s.table.contains_key(skipped.key));
            lemma_taken_keys(s, p, n + d);
            if record::batch_keys(batch).contains(skipped.key) {
                let j = choose|j: int|
                    0 <= j < batch.len() && record::batch_keys(batch)[j] == skipped.key;
                assert(batch[j].key == skipped.key);
                if j < d {
                    assert(batch.take(d)[j] == taken_entry(s, n + j));
                    lemma_taken_keys(s, n + j, n + d);
                } else if j > d {
                    assert(bytes::bytes_less(batch[d].key, batch[j].key));
                }
            } else {
                assert(bytes::bytes_less(batch[d].key, skipped.key));
            }
        }
        assert(p == n + d);
        assert forall|j: int| 0 <= j < c implies #[trigger] batch.take(c)[j] == taken_entry(
            s,
            n + j,
        ) by {
            if j < d {
                assert(batch.take(d)[j] == taken_entry(s, n + j));
            }
        }
    }
}

proof fn lemma_start_in_order(setup: relay::RelaySetup, backlog: Seq<relay::Arrival>)
    requires
        relay::in_stamp_order(backlog),
    ensures
        in_order(relay::RelayState::start(setup, backlog)),
{
    relay::law_start(setup, backlog);
    let s = relay::RelayState::start(setup, backlog);
    assert forall|i: int| gone_count(s) <= i < s.taken.len() implies s.table.contains_pair(
        (#[trigger] taken_entry(s, i)).key,
        taken_entry(s, i).value,
    ) by {
        assert(s.accounted(i));
    }
    assert forall|k: Seq<u8>| #[trigger] s.table.contains_key(k) implies exists|i: int|
        gone_count(s) <= i < s.taken.len() && (#[trigger] taken_entry(s, i)).key == k by {
        let i = choose|i: int|
            0 <= i < s.arrivals.len() && (#[trigger] s.arrivals[i]).entry() == (record::EntryView {
                key: k,
                value: s.table[k],
            });
        assert(taken_entry(s, i).key == k);
    }
}

/// What the queue has taken is only ever added to, in the order of arrival.
pub proof fn lemma_taken_step(s: relay::RelayState, input: relay::RelayInput)
    requires
        s.inv(),
        taken_in_order(s),
        s.timely(input),
        s.after(input) is Some,
    ensures
        taken_in_order(s.after(input)->0),
        s.taken.is_prefix_of((s.after(input)->0).taken),
        forall|i: int|
            0 <= i < s.taken.len() ==> #[trigger] taken_entry(s.after(input)->0, i) == taken_entry(
                s,
                i,
            ),
{
    let t = s.after(input)->0;
    let n = s.taken.len() as int;
    assert forall|i: int| 0 <= i < n implies #[trigger] taken_entry(t, i) == taken_entry(s, i) by {
        assert(t.taken[i] == s.taken[i]);
        assert(s.taken[i] < s.arrivals.len());
    }
    assert forall|i: int| 0 <= i < t.taken.len() implies 0 <= #[trigger] t.taken[i]
        < settled_count(t) by {
        if i < n {
            assert(t.taken[i] == s.taken[i]);
        }
    }
    assert forall|i: int, j: int| 0 <= i < j < t.taken.len() implies #[trigger] t.taken[i]
        < #[trigger] t.taken[j] by {
        assert(t.taken[i] == s.taken[i]);
        if j < n {
            assert(t.taken[j] == s.taken[j]);
        }
    }
    if t.failed == Set::<Seq<u8>>::empty() {
        assert(s.failed =~= Set::<Seq<u8>>::empty()) by {
            assert forall|k: Seq<u8>| !s.failed.contains(k) by {
                if s.failed.contains(k) {
                    assert(t.failed.contains(k));
                }
            }
        }
        if input matches relay::RelayInput::Ingest { event } && event is Stored
            && event->error is Some {
            assert(t.failed.contains(s.ingest.last.key()));
        }
        assert(t.taken =~= Seq::new(settled_count(t) as nat, |i: int| i));
    }
}

/// An input that leaves the queue, the requests and the removal alone keeps order.
proof fn lemma_other_in_order(s: relay::RelayState, input: relay::RelayInput)
    requires
        in_order(s),
        input is Ingest || input is Check,
        s.timely(input),
        s.after(input) is Some,
    ensures
        in_order(s.after(input)->0),
{
    let t = s.after(input)->0;
    relay::law_step(s, input);
    lemma_taken_step(s, input);
    assert forall|k: Seq<u8>| #[trigger] t.table.contains_key(k) implies exists|i: int|
        gone_count(t) <= i < t.taken.len() && (#[trigger] taken_entry(t, i)).key == k by {
        assert(s.table.contains_key(k));
        let i = choose|i: int|
            gone_count(s) <= i < s.taken.len() && (#[trigger] taken_entry(s, i)).key == k;
        assert(taken_entry(t, i).key == k);
    }
}

proof fn lemma_commit_in_order(s: relay::RelayState)
    requires
        in_order(s),
        s.pending is Some,
    ensures
        in_order(s.after(relay::RelayInput::Commit)->0),
{
    let t = s.after(relay::RelayInput::Commit)->0;
    relay::law_step(s, relay::RelayInput::Commit);
    lemma_taken_step(s, relay::RelayInput::Commit);
    let e = s.pending->0;
    let n = s.taken.len() as int;
    assert(taken_entry(t, n) == e);
    assert forall|i: int| gone_count(t) <= i < t.taken.len() implies t.table.contains_pair(
        (#[trigger] taken_entry(t, i)).key,
        taken_entry(t, i).value,
    ) by {
        if i < n {
            assert(s.table.contains_pair(taken_entry(s, i).key, taken_entry(s, i).value));
        }
    }
    assert forall|k: Seq<u8>| #[trigger] t.table.contains_key(k) implies exists|i: int|
        gone_count(t) <= i < t.taken.len() && (#[trigger] taken_entry(t, i)).key == k by {
        if k == e.key {
            assert(taken_entry(t, n).key == k);
        } else {
            assert(s.table.contains_key(k));
            let i = choose|i: int|
                gone_count(s) <= i < s.taken.len() && (#[trigger] taken_entry(s, i)).key == k;
            assert(taken_entry(t, i).key == k);
        }
    }
}

#[verifier::rlimit(40)]
proof fn lemma_egress_in_order(s: relay::RelayState, event: egress::EgressEventView)
    requires
        in_order(s),
        prompt(s, relay::RelayInput::Egress { event }),
        s.after_egress(event) is Some,
    ensures
        in_order(s.after_egress(event)->0),
{
    let t = s.after_egress(event)->0;
    relay::law_step(s, relay::RelayInput::Egress { event });
    lemma_taken_step(s, relay::RelayInput::Egress { event });
    let n = sent_count(s) as int;
    assert(s.removing is None);
    match event {
        egress::EgressEventView::Batch { entries } => {
            lemma_oldest_follows(s, s.egress.batch_size, entries, entries.len() as int);
            assert(entries.take(entries.len() as int) =~= entries);
            assert forall|j: int| 0 <= j < entries.len() implies #[trigger] entries[j]
                == taken_entry(t, n + j) by {
                assert(entries[j] == taken_entry(s, n + j));
            }
        },
        egress::EgressEventView::Response { status } => {
            if egress::accepted(status) {
                let r = s.request->0;
                assert(t.accepted.drop_last() =~= s.accepted);
                assert(entries_of(t.accepted) == entries_of(s.accepted) + r.entries);
                assert forall|j: int| 0 <= j < entries_of(t.accepted).len() implies
                    #[trigger] entries_of(t.accepted)[j] == taken_entry(t, 0 + j) by {
                    if j < n {
                        assert(entries_of(s.accepted)[j] == taken_entry(s, 0 + j));
                    } else {
                        assert(r.entries[j - n] == taken_entry(s, n + (j - n)));
                    }
                }
                let keys = t.removing->0;
                assert forall|j: int| 0 <= j < keys.len() implies #[trigger] keys[j]
                    == taken_entry(t, gone_count(t) + j).key by {
                    assert(r.entries[j] == taken_entry(s, n + j));
                }
            }
        },
        egress::EgressEventView::Done => {},
    }
    assert forall|k: Seq<u8>| #[trigger] t.table.contains_key(k) implies exists|i: int|
        gone_count(t) <= i < t.taken.len() && (#[trigger] taken_entry(t, i)).key == k by {
        assert(s.table.contains_key(k));
        let i = choose|i: int|
            gone_count(s) <= i < s.taken.len() && (#[trigger] taken_entry(s, i)).key == k;
        assert(taken_entry(t, i).key == k);
    }
}

#[verifier::rlimit(40)]
proof fn lemma_purge_in_order(s: relay::RelayState)
    requires
        in_order(s),
        s.removing is Some,
    ensures
        in_order(s.after(relay::RelayInput::Purge)->0),
{
    let t = s.after(relay::RelayInput::Purge)->0;
    relay::law_step(s, relay::RelayInput::Purge);
    lemma_taken_step(s, relay::RelayInput::Purge);
    let keys = s.removing->0;
    let gone = gone_count(s);
    assert forall|i: int| gone_count(t) <= i < t.taken.len() implies t.table.contains_pair(
        (#[trigger] taken_entry(t, i)).key,
        taken_entry(t, i).value,
    ) by {
        let k = taken_entry(s, i).key;
        assert(s.table.contains_pair(k, taken_entry(s, i).value));
        if keys.contains(k) {
            let j = choose|j: int| 0 <= j < keys.len() && keys[j] == k;
            assert(keys[j] == taken_entry(s, gone + j).key);
            lemma_taken_keys(s, gone + j, i);
        }
    }
    assert forall|k: Seq<u8>| #[trigger] t.table.contains_key(k) implies exists|i: int|
        gone_count(t) <= i < t.taken.len() && (#[trigger] taken_entry(t, i)).key == k by {
        assert(s.table.contains_key(k));
        let i = choose|i: int|
            gone_count(s) <= i < s.taken.len() && (#[trigger] taken_entry(s, i)).key == k;
        if i < gone_count(t) {
            assert(keys[i - gone] == taken_entry(s, gone + (i - gone)).key);
            assert(keys.to_set().contains(k));
        }
        assert(taken_entry(t, i).key == k);
    }
}

pub proof fn lemma_step_in_order(s: relay::RelayState, input: relay::RelayInput)
    requires
        in_order(s),
        s.timely(input),
        prompt(s, input),
        s.after(input) is Some,
    ensures
        in_order(s.after(input)->0),
{
    match input {
        relay::RelayInput::Commit => {
            lemma_commit_in_order(s);
        },
        relay::RelayInput::Egress { event } => {
            lemma_egress_in_order(s, event);
        },
        relay::RelayInput::Purge => {
            lemma_purge_in_order(s);
        },
        _ => {
            lemma_other_in_order(s, input);
        },
    }
}

/// Order is kept at every moment of a run whose removals take effect before they
/// are answered.
pub proof fn law_run_in_order(
    setup: relay::RelaySetup,
    backlog: Seq<relay::Arrival>,
    inputs: Seq<relay::RelayInput>,
)
    requires
        relay::in_stamp_order(backlog),
        relay::timely_run(relay::RelayState::start(setup, backlog), inputs),
        prompt_run(relay::RelayState::start(setup, backlog), inputs),
    ensures
        relay::run(relay::RelayState::start(setup, backlog), inputs) matches Some(t) ==> in_order(
            t,
        ),
    decreases inputs.len(),
{
    if inputs.len() == 0 {
        lemma_start_in_order(setup, backlog);
    } else {
        law_run_in_order(setup, backlog, inputs.drop_last());
        if let Some(s) = relay::run(relay::RelayState::start(setup, backlog), inputs.drop_last()) {
            if s.after(inputs.last()) is Some {
                lemma_step_in_order(s, inputs.last());
            }
        }
    }
}

proof fn lemma_concat_append(a: Seq<Seq<u8>>, b: Seq<Seq<u8>>)
    ensures
        record::concat(a + b) == record::concat(a) + record::concat(b),
    decreases b.len(),
{
    if b.len() == 0 {
        assert(a + b =~= a);
        assert(record::concat(a + b) =~= record::concat(a) + record::concat(b));
    } else {
        lemma_concat_append(a, b.drop_last());
        assert((a + b).drop_last() =~= a + b.drop_last());
        assert(record::concat(a + b) =~= record::concat(a) + record::concat(b));
    }
}

/// The bodies of requests, joined, are the messages of their entries, joined.
proof fn lemma_bodies_are_payload(requests: Seq<relay::Request>)
    requires
        forall|i: int|
            0 <= i < requests.len() ==> (#[trigger] requests[i]).body == record::payload(
                requests[i].entries,
            ),
    ensures
        record::concat(bodies_of(requests)) == record::payload(entries_of(requests)),
    decreases requests.len(),
{
    let carried = |e: record::EntryView| record::message_of(e.value);
    if requests.len() == 0 {
        assert(entries_of(requests).map_values(carried) =~= Seq::<Seq<u8>>::empty());
    } else {
        let earlier = requests.drop_last();
        let last = requests.last();
        assert forall|i: int| 0 <= i < earlier.len() implies (#[trigger] earlier[i]).body
            == record::payload(earlier[i].entries) by {
            assert(earlier[i] == requests[i]);
        }
        lemma_bodies_are_payload(earlier);
        assert(last == requests[requests.len() - 1]);
        assert(bodies_of(requests).drop_last() =~= bodies_of(earlier));
        lemma_concat_append(entries_of(earlier).map_values(carried), last.entries.map_values(carried));
        assert(entries_of(requests).map_values(carried) =~= entries_of(earlier).map_values(carried)
            + last.entries.map_values(carried));
    }
}

/// Every message fits the length field of a value.
pub open spec fn messages_fit(s: relay::RelayState) -> bool {
    forall|i: int|
        0 <= i < s.arrivals.len() ==> (#[trigger] s.arrivals[i]).message.len() < 0x1_0000_0000
}

pub proof fn lemma_bodies_are_messages(t: relay::RelayState)
    requires
        in_order(t),
        messages_fit(t),
    ensures
        sent_count(t) <= t.taken.len(),
        record::concat(bodies_of(t.accepted)) == record::concat(
            messages_of(taken_arrivals(t).take(sent_count(t) as int)),
        ),
        t.table == Map::<Seq<u8>, Seq<u8>>::empty() ==> sent_count(t) == t.taken.len(),
        t.failed == Set::<Seq<u8>>::empty() ==> {
            &&& sent_count(t) <= t.arrivals.len()
            &&& taken_arrivals(t).take(sent_count(t) as int) == t.arrivals.take(
                sent_count(t) as int,
            )
            &&& t.pending is None ==> t.taken.len() == t.arrivals.len()
        },
{
    let n = sent_count(t) as int;
    let sent = entries_of(t.accepted);
    lemma_bodies_are_payload(t.accepted);
    let parts = sent.map_values(|e: record::EntryView| record::message_of(e.value));
    let messages = messages_of(taken_arrivals(t).take(n));
    assert forall|i: int| 0 <= i < n implies parts[i] == messages[i] by {
        let a = t.arrivals[t.taken[i]];
        assert(sent[i] == taken_entry(t, 0 + i));
        record::law_message_round_trip(a.stamp.ts_ns, a.message);
    }
    assert(parts =~= messages);
    if t.table == Map::<Seq<u8>, Seq<u8>>::empty() && n < t.taken.len() {
        assert(t.table.contains_pair(taken_entry(t, n).key, taken_entry(t, n).value));
    }
    if t.failed == Set::<Seq<u8>>::empty() {
        assert(taken_arrivals(t).take(n) =~= t.arrivals.take(n));
    }
}

/// First in, first out, over a whole run: where removals take effect before they are
/// answered, the bodies of the accepted requests, joined in the order of sending,
/// are the messages that the queue took first, unchanged, in the order in which it
/// took them, each once. Once the queue is empty, those are all that it took.
pub proof fn law_run_fifo(
    setup: relay::RelaySetup,
    backlog: Seq<relay::Arrival>,
    inputs: Seq<relay::RelayInput>,
)
    requires
        relay::in_stamp_order(backlog),
        relay::timely_run(relay::RelayState::start(setup, backlog), inputs),
        prompt_run(relay::RelayState::start(setup, backlog), inputs),
        relay::run(relay::RelayState::start(setup, backlog), inputs) matches Some(t)
            && messages_fit(t),
    ensures
        ({
            let t = relay::run(relay::RelayState::start(setup, backlog), inputs)->0;
            &&& sent_count(t) <= t.taken.len()
            &&& record::concat(bodies_of(t.accepted)) == record::concat(
                messages_of(taken_arrivals(t).take(sent_count(t) as int)),
            )
            &&& t.table == Map::<Seq<u8>, Seq<u8>>::empty() ==> sent_count(t) == t.taken.len()
        }),
{
    law_run_in_order(setup, backlog, inputs);
    lemma_bodies_are_messages(relay::run(relay::RelayState::start(setup, backlog), inputs)->0);
}

/// First in, first out, from pipe to server: where, besides, no insert was answered
/// with an error, the bodies of the accepted requests, joined in the order of
/// sending, are the messages that arrived first, unchanged, in the order of arrival,
/// each once. Once the queue is empty and no insert is under way, those are all
/// messages that arrived.
pub proof fn law_run_delivers_in_order(
    setup: relay::RelaySetup,
    backlog: Seq<relay::Arrival>,
    inputs: Seq<relay::RelayInput>,
)
    requires
        relay::in_stamp_order(backlog),
        relay::timely_run(relay::RelayState::start(setup, backlog), inputs),
        prompt_run(relay::RelayState::start(setup, backlog), inputs),
        relay::run(relay::RelayState::start(setup, backlog), inputs) matches Some(t) && t.failed
            == Set::<Seq<u8>>::empty() && messages_fit(t),
    ensures
        ({
            let t = relay::run(relay::RelayState::start(setup, backlog), inputs)->0;
            &&& sent_count(t) <= t.arrivals.len()
            &&& record::concat(bodies_of(t.accepted)) == record::concat(
                messages_of(t.arrivals.take(sent_count(t) as int)),
            )
            &&& t.table == Map::<Seq<u8>, Seq<u8>>::empty() && t.pending is None ==> {
                &&& sent_count(t) == t.arrivals.len()
                &&& record::concat(bodies_of(t.accepted)) == record::concat(
                    messages_of(t.arrivals),
                )
            }
        }),
{
    law_run_in_order(setup, backlog, inputs);
    let t = relay::run(relay::RelayState::start(setup, backlog), inputs)->0;
    let n = sent_count(t) as int;
    lemma_bodies_are_messages(t);
    if n == t.arrivals.len() {
        assert(t.arrivals.take(n) =~= t.arrivals);
    }
}

} // verus!
