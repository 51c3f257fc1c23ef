//! Order at the server where removals may fail: a message may then be sent again,
//! and still none is sent before one that the queue took earlier.

use vstd::prelude::*;

use crate::bytes;
use crate::delivery;
use crate::record;
use crate::relay;

verus! {

/// One of the first `n` accepted requests carried `e`.
pub open spec fn sent_within(
    accepted: Seq<relay::Request>,
    n: int,
    e: record::EntryView,
) -> bool {
    exists|p: int| 0 <= p < n && (#[trigger] accepted[p]).entries.contains(e)
}

/// `e` is the entry of a message that the queue has taken.
pub open spec fn is_taken(s: relay::RelayState, e: record::EntryView) -> bool {
    exists|i: int| 0 <= i < s.taken.len() && #[trigger] delivery::taken_entry(s, i) == e
}

/// The queue and the requests hold nothing but what the queue has taken, and what has
/// left the queue was sent.
pub open spec fn only_taken(s: relay::RelayState) -> bool {
    &&& forall|k: Seq<u8>| #[trigger]
        s.table.contains_key(k) ==> is_taken(s, record::EntryView { key: k, value: s.table[k] })
    &&& s.request matches Some(r) ==> forall|e: record::EntryView| #[trigger]
        r.entries.contains(e) ==> is_taken(s, e)
    &&& forall|q: int, e: record::EntryView|
        0 <= q < s.accepted.len() && #[trigger] s.accepted[q].entries.contains(e) ==> is_taken(s, e)
    &&& forall|i: int|
        0 <= i < s.taken.len() ==> s.table.contains_pair(
            (#[trigger] delivery::taken_entry(s, i)).key,
            delivery::taken_entry(s, i).value,
        ) || sent_within(s.accepted, s.accepted.len() as int, delivery::taken_entry(s, i))
}

/// Whatever the queue took before an entry of the request under way is in that
/// request or was sent.
pub open spec fn request_in_order(s: relay::RelayState) -> bool {
    s.request matches Some(r) ==> forall|i: int, j: int|
        0 <= i < j < s.taken.len() && r.entries.contains(#[trigger] delivery::taken_entry(s, j))
            ==> r.entries.contains(#[trigger] delivery::taken_entry(s, i)) || sent_within(
            s.accepted,
            s.accepted.len() as int,
            delivery::taken_entry(s, i),
        )
}

/// Whatever the queue took before an entry of an accepted request was in that request
/// or in one accepted before it.
pub open spec fn accepted_in_order(s: relay::RelayState) -> bool {
    forall|q: int, i: int, j: int|
        0 <= q < s.accepted.len() && 0 <= i < j < s.taken.len()
            && #[trigger] s.accepted[q].entries.contains(delivery::taken_entry(s, j))
            ==> sent_within(s.accepted, q + 1, #[trigger] delivery::taken_entry(s, i))
}

/// What holds at any moment of a timely run, whether or not removals take effect.
pub open spec fn sent_in_order(s: relay::RelayState) -> bool {
    &&& s.inv()
    &&& delivery::taken_in_order(s)
    &&& only_taken(s)
    &&& request_in_order(s)
    &&& accepted_in_order(s)
}

proof fn lemma_sent_within_grows(
    before: Seq<relay::Request>,
    after: Seq<relay::Request>,
    n: int,
    m: int,
    e: record::EntryView,
)
    requires
        before.is_prefix_of(after),
        n <= m,
        n <= before.len(),
        sent_within(before, n, e),
    ensures
        sent_within(after, m, e),
{
    let p = choose|p: int| 0 <= p < n && (#[trigger] before[p]).entries.contains(e);
    assert(after[p] == before[p]);
}

proof fn lemma_start_sent_in_order(setup: relay::RelaySetup, backlog: Seq<relay::Arrival>)
    requires
        relay::in_stamp_order(backlog),
    ensures
        sent_in_order(relay::RelayState::start(setup, backlog)),
{
    relay::law_start(setup, backlog);
    let s = relay::RelayState::start(setup, backlog);
    assert forall|k: Seq<u8>| #[trigger] s.table.contains_key(k) implies is_taken(
        s,
        record::EntryView { key: k, value: s.table[k] },
    ) by {
        let e = record::EntryView { key: k, value: s.table[k] };
        assert(s.arrived(e));
        let i = choose|i: int| 0 <= i < s.arrivals.len() && (#[trigger] s.arrivals[i]).entry() == e;
        assert(delivery::taken_entry(s, i) == e);
    }
    assert forall|i: int| 0 <= i < s.taken.len() implies s.table.contains_pair(
        (#[trigger] delivery::taken_entry(s, i)).key,
        delivery::taken_entry(s, i).value,
    ) by {
        assert(s.accounted(i));
    }
}

#[verifier::rlimit(40)]
proof fn lemma_step_only_taken(s: relay::RelayState, input: relay::RelayInput)
    requires
        sent_in_order(s),
        s.timely(input),
        s.after(input) is Some,
    ensures
        only_taken(s.after(input)->0),
{
    let t = s.after(input)->0;
    let n = s.taken.len() as int;
    relay::law_step(s, input);
    delivery::lemma_taken_step(s, input);
    assert forall|e: record::EntryView| #[trigger] is_taken(s, e) implies is_taken(t, e) by {
        let i = choose|i: int| 0 <= i < n && #[trigger] delivery::taken_entry(s, i) == e;
        assert(delivery::taken_entry(t, i) == e);
    }
    if input is Commit {
        assert(delivery::taken_entry(t, n) == s.pending->0);
    }
    assert forall|k: Seq<u8>| #[trigger] t.table.contains_key(k) implies is_taken(
        t,
        record::EntryView { key: k, value: t.table[k] },
    ) by {
        if input is Commit && k == s.pending->0.key {
            assert(delivery::taken_entry(t, n) == (record::EntryView { key: k, value: t.table[k] }));
        } else {
            assert(s.table.contains_key(k));
            assert(is_taken(s, record::EntryView { key: k, value: s.table[k] }));
        }
    }
    if let Some(r) = t.request {
        assert forall|e: record::EntryView| #[trigger] r.entries.contains(e) implies is_taken(
            t,
            e,
        ) by {
            if s.request != Some(r) {
                let x = choose|x: int| 0 <= x < r.entries.len() && r.entries[x] == e;
                assert(s.table.contains_pair(r.entries[x].key, r.entries[x].value));
                assert(s.table.contains_key(e.key));
                assert(e == (record::EntryView { key: e.key, value: s.table[e.key] }));
            }
            assert(is_taken(s, e));
        }
    }
    assert forall|q: int, e: record::EntryView|
        0 <= q < t.accepted.len() && #[trigger] t.accepted[q].entries.contains(e) implies is_taken(
        t,
        e,
    ) by {
        if q < s.accepted.len() {
            assert(t.accepted[q] == s.accepted[q]);
        }
        assert(is_taken(s, e));
    }
    assert forall|i: int| 0 <= i < t.taken.len() implies t.table.contains_pair(
        (#[trigger] delivery::taken_entry(t, i)).key,
        delivery::taken_entry(t, i).value,
    ) || sent_within(t.accepted, t.accepted.len() as int, delivery::taken_entry(t, i)) by {
        if i < n {
            let e = delivery::taken_entry(s, i);
            if sent_within(s.accepted, s.accepted.len() as int, e) {
                lemma_sent_within_grows(
                    s.accepted,
                    t.accepted,
                    s.accepted.len() as int,
                    t.accepted.len() as int,
                    e,
                );
            } else if !t.table.contains_pair(e.key, e.value) {
                assert(s.table.contains_key(e.key));
                assert(s.delivered.contains(e.key));
                relay::lemma_delivered_is_sent(s, s.taken[i]);
                assert(s.sent(e));
            }
        }
    }
}

#[verifier::rlimit(40)]
proof fn lemma_step_request_in_order(s: relay::RelayState, input: relay::RelayInput)
    requires
        sent_in_order(s),
        s.timely(input),
        s.after(input) is Some,
    ensures
        request_in_order(s.after(input)->0),
{
    let t = s.after(input)->0;
    let n = s.taken.len() as int;
    relay::law_step(s, input);
    delivery::lemma_taken_step(s, input);
    if let Some(r) = t.request {
        assert forall|i: int, j: int|
            0 <= i < j < t.taken.len() && r.entries.contains(
                #[trigger] delivery::taken_entry(t, j),
            ) implies r.entries.contains(#[trigger] delivery::taken_entry(t, i)) || sent_within(
            t.accepted,
            t.accepted.len() as int,
            delivery::taken_entry(t, i),
        ) by {
            let e = delivery::taken_entry(t, i);
            let f = delivery::taken_entry(t, j);
            if s.request == Some(r) {
                if j == n {
                    lemma_new_is_not_taken(s, f);
                }
                assert(r.entries.contains(delivery::taken_entry(s, j)));
                assert(delivery::taken_entry(s, i) == e);
            } else {
                assert(delivery::taken_entry(s, i) == e);
                if !sent_within(s.accepted, s.accepted.len() as int, e) && !r.entries.contains(e) {
                    let x = choose|x: int| 0 <= x < r.entries.len() && r.entries[x] == f;
                    assert(s.table.contains_key(e.key));
                    if record::batch_keys(r.entries).contains(e.key) {
                        let y = choose|y: int|
                            0 <= y < r.entries.len() && record::batch_keys(r.entries)[y] == e.key;
                        assert(r.entries[y].key == e.key);
                        assert(s.table.contains_pair(r.entries[y].key, r.entries[y].value));
                        assert(r.entries[y] == e);
                    } else {
                        assert(bytes::bytes_less(r.entries[x].key, e.key));
                        delivery::lemma_taken_keys(t, j, i);
                    }
                }
            }
        }
    }
}

/// The entry of the insert under way is none that the queue has taken.
proof fn lemma_new_is_not_taken(s: relay::RelayState, e: record::EntryView)
    requires
        s.inv(),
        delivery::taken_in_order(s),
        s.pending == Some(e),
    ensures
        !is_taken(s, e),
{
    if is_taken(s, e) {
        let i = choose|i: int| 0 <= i < s.taken.len() && #[trigger] delivery::taken_entry(s, i) == e;
        relay::lemma_same_key_same_arrival(s.arrivals, s.taken[i], s.arrivals.len() - 1);
    }
}

#[verifier::rlimit(40)]
proof fn lemma_step_accepted_in_order(s: relay::RelayState, input: relay::RelayInput)
    requires
        sent_in_order(s),
        s.timely(input),
        s.after(input) is Some,
    ensures
        accepted_in_order(s.after(input)->0),
{
    let t = s.after(input)->0;
    let n = s.taken.len() as int;
    delivery::lemma_taken_step(s, input);
    assert forall|q: int, i: int, j: int|
        0 <= q < t.accepted.len() && 0 <= i < j < t.taken.len()
            && #[trigger] t.accepted[q].entries.contains(delivery::taken_entry(t, j)) implies
        sent_within(t.accepted, q + 1, #[trigger] delivery::taken_entry(t, i)) by {
        let e = delivery::taken_entry(t, i);
        let f = delivery::taken_entry(t, j);
        assert(delivery::taken_entry(s, i) == e);
        if q < s.accepted.len() {
            assert(t.accepted[q] == s.accepted[q]);
            if j == n {
                assert(s.accepted[q].entries.contains(f));
                lemma_new_is_not_taken(s, f);
            }
            assert(s.accepted[q].entries.contains(delivery::taken_entry(s, j)));
            lemma_sent_within_grows(s.accepted, t.accepted, q + 1, q + 1, e);
        } else {
            let r = s.request->0;
            assert(r.entries.contains(delivery::taken_entry(s, j)));
            if r.entries.contains(e) {
                assert(t.accepted[q].entries.contains(e));
            } else {
                lemma_sent_within_grows(s.accepted, t.accepted, q, q + 1, e);
            }
        }
    }
}

/// Whatever happens in time keeps what is sent in order.
pub proof fn law_step_sent_in_order(s: relay::RelayState, input: relay::RelayInput)
    requires
        sent_in_order(s),
        s.timely(input),
        s.after(input) is Some,
    ensures
        sent_in_order(s.after(input)->0),
{
    relay::law_step(s, input);
    delivery::lemma_taken_step(s, input);
    lemma_step_only_taken(s, input);
    lemma_step_request_in_order(s, input);
    lemma_step_accepted_in_order(s, input);
}

/// What is sent is in order at every moment of a timely run.
pub proof fn law_run_sent_in_order(
    setup: relay::RelaySetup,
    backlog: Seq<relay::Arrival>,
    inputs: Seq<relay::RelayInput>,
)
    requires
        relay::in_stamp_order(backlog),
        relay::timely_run(relay::RelayState::start(setup, backlog), inputs),
    ensures
        relay::run(relay::RelayState::start(setup, backlog), inputs) matches Some(t)
            ==> sent_in_order(t),
    decreases inputs.len(),
{
    if inputs.len() == 0 {
        lemma_start_sent_in_order(setup, backlog);
    } else {
        law_run_sent_in_order(setup, backlog, inputs.drop_last());
        if let Some(s) = relay::run(relay::RelayState::start(setup, backlog), inputs.drop_last()) {
            if s.after(inputs.last()) is Some {
                law_step_sent_in_order(s, inputs.last());
            }
        }
    }
}

/// No message overtakes another, in any timely run, with removals that may fail: if
/// message `j` of those that the queue has taken was in accepted request `q`, then
/// each message `i` that the queue took before it was in that request or in one
/// accepted before it, and the body of either was the messages of its entries.
pub proof fn law_run_no_overtaking(
    setup: relay::RelaySetup,
    backlog: Seq<relay::Arrival>,
    inputs: Seq<relay::RelayInput>,
    i: int,
    j: int,
    q: int,
)
    requires
        relay::in_stamp_order(backlog),
        relay::timely_run(relay::RelayState::start(setup, backlog), inputs),
        relay::run(relay::RelayState::start(setup, backlog), inputs) matches Some(t) && {
            &&& 0 <= i < j < t.taken.len()
            &&& 0 <= q < t.accepted.len()
            &&& t.accepted[q].entries.contains(delivery::taken_entry(t, j))
        },
    ensures
        ({
            let t = relay::run(relay::RelayState::start(setup, backlog), inputs)->0;
            exists|p: int|
                0 <= p <= q && (#[trigger] t.accepted[p]).entries.contains(
                    delivery::taken_entry(t, i),
                ) && t.accepted[p].body == record::payload(t.accepted[p].entries)
        }),
{
    law_run_sent_in_order(setup, backlog, inputs);
    let t = relay::run(relay::RelayState::start(setup, backlog), inputs)->0;
    let e = delivery::taken_entry(t, i);
    assert(sent_within(t.accepted, q + 1, e));
    let p = choose|p: int| 0 <= p < q + 1 && (#[trigger] t.accepted[p]).entries.contains(e);
    assert(t.accepted[p].body == record::payload(t.accepted[p].entries));
}

} // verus!
