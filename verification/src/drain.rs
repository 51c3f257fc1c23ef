//! The queue drains: while the server takes what it is sent and removals take effect,
//! each round of the egress task takes the oldest entries out of the queue, until it
//! is empty and everything has been sent.

use vstd::prelude::*;

use crate::bytes;
use crate::delivery;
use crate::egress;
use crate::intake;
use crate::record;
use crate::relay;

verus! {

/// `batch` is what a read of at most `limit` entries gives: the oldest entries of
/// `table`, and as many of them as there are, up to the limit.
pub open spec fn is_full_batch(
    table: Map<Seq<u8>, Seq<u8>>,
    limit: usize,
    batch: Seq<record::EntryView>,
) -> bool {
    &&& relay::is_oldest(table, limit, batch)
    &&& batch.len() == limit || forall|k: Seq<u8>| #[trigger]
        table.contains_key(k) ==> record::batch_keys(batch).contains(k)
}

/// A round of the egress task: the batch that it reads, and the status with which the
/// request is answered.
pub struct Round {
    pub batch: Seq<record::EntryView>,
    pub status: Option<u16>,
}

impl Round {
    /// What happens in the round, up to the next read.
    pub open spec fn inputs(self) -> Seq<relay::RelayInput> {
        let read = relay::RelayInput::Egress {
            event: egress::EgressEventView::Batch { entries: self.batch },
        };
        let answer = relay::RelayInput::Egress {
            event: egress::EgressEventView::Response { status: self.status },
        };
        let done = relay::RelayInput::Egress { event: egress::EgressEventView::Done };
        if self.batch.len() == 0 {
            seq![read, done]
        } else {
            seq![read, answer, relay::RelayInput::Purge, done]
        }
    }
}

/// The relay between two rounds of the egress task, in order.
pub open spec fn between_rounds(s: relay::RelayState) -> bool {
    &&& delivery::in_order(s)
    &&& s.egress.phase is Reading
}

/// Nothing has happened between `s` and `t` but at the sending side.
pub open spec fn same_intake(s: relay::RelayState, t: relay::RelayState) -> bool {
    &&& t.ingest == s.ingest
    &&& t.limits == s.limits
    &&& t.paused == s.paused
    &&& t.pending == s.pending
    &&& t.arrivals == s.arrivals
    &&& t.backlog == s.backlog
    &&& t.failed == s.failed
    &&& t.taken == s.taken
    &&& t.egress.batch_size == s.egress.batch_size
}

proof fn lemma_run_push(
    s: relay::RelayState,
    inputs: Seq<relay::RelayInput>,
    input: relay::RelayInput,
)
    requires
        relay::run(s, inputs) is Some,
    ensures
        relay::run(s, inputs.push(input)) == (relay::run(s, inputs)->0).after(input),
{
    assert(inputs.push(input).drop_last() =~= inputs);
}

/// The queue holds one entry for each message that it has taken and that has not
/// left.
proof fn lemma_table_size(s: relay::RelayState)
    requires
        delivery::in_order(s),
    ensures
        s.table.dom().finite(),
        s.table.len() == s.taken.len() - delivery::gone_count(s),
{
    let gone = delivery::gone_count(s);
    let keys = Seq::new(
        (s.taken.len() - gone) as nat,
        |i: int| delivery::taken_entry(s, gone + i).key,
    );
    assert forall|i: int, j: int|
        0 <= i < keys.len() && 0 <= j < keys.len() && i != j implies keys[i] != keys[j] by {
        delivery::lemma_taken_keys(s, gone + i, gone + j);
    }
    keys.unique_seq_to_set();
    assert(keys.to_set() =~= s.table.dom()) by {
        assert forall|k: Seq<u8>| #[trigger] keys.to_set().contains(k) implies s.table.contains_key(
            k,
        ) by {
            let i = choose|i: int| 0 <= i < keys.len() && keys[i] == k;
            let e = delivery::taken_entry(s, gone + i);
            assert(s.table.contains_pair(e.key, e.value));
        }
        assert forall|k: Seq<u8>| #[trigger] s.table.contains_key(k) implies keys.to_set().contains(
            k,
        ) by {
            let i = choose|i: int|
                gone <= i < s.taken.len() && (#[trigger] delivery::taken_entry(s, i)).key == k;
            assert(keys[i - gone] == k);
        }
    }
}

/// The relay in the middle of a round: after the batch is read, after the request is
/// answered, after the removal takes effect.
spec fn mid_round(s: relay::RelayState, round: Round, steps: int) -> relay::RelayState {
    let inputs = round.inputs();
    let read = s.after(inputs[0])->0;
    let answered = read.after(inputs[1])->0;
    let removed = answered.after(inputs[2])->0;
    if steps == 1 {
        read
    } else if steps == 2 {
        answered
    } else {
        removed
    }
}

#[verifier::rlimit(40)]
proof fn lemma_round_runs(s: relay::RelayState, round: Round)
    requires
        s.egress.phase is Reading,
        relay::is_oldest(s.table, s.egress.batch_size, round.batch),
        round.batch.len() > 0,
        egress::accepted(round.status),
    ensures
        s.after(round.inputs()[0]) == Some(mid_round(s, round, 1)),
        mid_round(s, round, 1).after(round.inputs()[1]) == Some(mid_round(s, round, 2)),
        mid_round(s, round, 2).after(round.inputs()[2]) == Some(mid_round(s, round, 3)),
        mid_round(s, round, 3).removing is None,
        mid_round(s, round, 3).after(round.inputs()[3]) matches Some(t) && {
            &&& t.egress.phase is Reading
            &&& t.removing is None
            &&& same_intake(s, t)
            &&& t.table == s.table.remove_keys(record::batch_keys(round.batch).to_set())
            &&& t.accepted == s.accepted.push(
                relay::Request { entries: round.batch, body: record::payload(round.batch) },
            )
        },
{
}

proof fn lemma_round_is_run(s: relay::RelayState, round: Round)
    requires
        s.egress.phase is Reading,
        relay::is_oldest(s.table, s.egress.batch_size, round.batch),
        round.batch.len() > 0,
        egress::accepted(round.status),
    ensures
        relay::run(s, round.inputs()) == mid_round(s, round, 3).after(round.inputs()[3]),
{
    let inputs = round.inputs();
    let none = Seq::<relay::RelayInput>::empty();
    lemma_round_runs(s, round);
    lemma_run_push(s, none, inputs[0]);
    lemma_run_push(s, none.push(inputs[0]), inputs[1]);
    lemma_run_push(s, none.push(inputs[0]).push(inputs[1]), inputs[2]);
    lemma_run_push(s, none.push(inputs[0]).push(inputs[1]).push(inputs[2]), inputs[3]);
    assert(inputs =~= none.push(inputs[0]).push(inputs[1]).push(inputs[2]).push(inputs[3]));
}

#[verifier::rlimit(40)]
proof fn lemma_round_in_order(s: relay::RelayState, round: Round)
    requires
        between_rounds(s),
        relay::is_oldest(s.table, s.egress.batch_size, round.batch),
        round.batch.len() > 0,
        egress::accepted(round.status),
    ensures
        delivery::in_order(mid_round(s, round, 3).after(round.inputs()[3])->0),
{
    let inputs = round.inputs();
    lemma_round_runs(s, round);
    delivery::lemma_step_in_order(s, inputs[0]);
    delivery::lemma_step_in_order(mid_round(s, round, 1), inputs[1]);
    delivery::lemma_step_in_order(mid_round(s, round, 2), inputs[2]);
    delivery::lemma_step_in_order(mid_round(s, round, 3), inputs[3]);
}

/// One round drains a batch: where a batch is read, the request is answered with a
/// 2xx status and the removal takes effect, the queue is what it was without the
/// entries of the batch, smaller by as many, and the request with their messages is
/// the last that was accepted.
#[verifier::rlimit(40)]
pub proof fn law_round(s: relay::RelayState, round: Round)
    requires
        between_rounds(s),
        relay::is_oldest(s.table, s.egress.batch_size, round.batch),
        round.batch.len() > 0,
        egress::accepted(round.status),
    ensures
        relay::run(s, round.inputs()) matches Some(t) && {
            &&& between_rounds(t)
            &&& same_intake(s, t)
            &&& t.table == s.table.remove_keys(record::batch_keys(round.batch).to_set())
            &&& s.table.dom().finite()
            &&& t.table.dom().finite()
            &&& t.table.len() == s.table.len() - round.batch.len()
            &&& t.accepted == s.accepted.push(
                relay::Request { entries: round.batch, body: record::payload(round.batch) },
            )
        },
{
    lemma_round_runs(s, round);
    lemma_round_is_run(s, round);
    lemma_round_in_order(s, round);
    let t = relay::run(s, round.inputs())->0;
    lemma_table_size(s);
    lemma_table_size(t);
    assert(t.accepted.drop_last() =~= s.accepted);
    assert(delivery::sent_count(t) == delivery::sent_count(s) + round.batch.len());
}

/// A round on an empty batch changes nothing but what the task waits for.
#[verifier::rlimit(40)]
pub proof fn law_empty_round(s: relay::RelayState, round: Round)
    requires
        between_rounds(s),
        round.batch.len() == 0,
    ensures
        relay::run(s, round.inputs()) matches Some(t) && {
            &&& between_rounds(t)
            &&& same_intake(s, t)
            &&& t.table == s.table
            &&& t.accepted == s.accepted
        },
{
    let read = relay::RelayInput::Egress {
        event: egress::EgressEventView::Batch { entries: round.batch },
    };
    let done = relay::RelayInput::Egress { event: egress::EgressEventView::Done };
    let none = Seq::<relay::RelayInput>::empty();
    lemma_run_push(s, none, read);
    let s1 = s.after(read)->0;
    delivery::lemma_step_in_order(s, read);
    lemma_run_push(s, none.push(read), done);
    delivery::lemma_step_in_order(s1, done);
    assert(round.inputs() =~= none.push(read).push(done));
}

/// The relay after one round after the other, each of which reads a full batch and is
/// answered with a 2xx status. `None` where the rounds are not so.
pub open spec fn drain(s: relay::RelayState, rounds: Seq<Round>) -> Option<relay::RelayState>
    decreases rounds.len(),
{
    if rounds.len() == 0 {
        Some(s)
    } else {
        let round = rounds.last();
        match drain(s, rounds.drop_last()) {
            Some(t) => if is_full_batch(t.table, t.egress.batch_size, round.batch)
                && egress::accepted(round.status) {
                relay::run(t, round.inputs())
            } else {
                None
            },
            None => None,
        }
    }
}

/// Each round takes at least one entry out of a queue that holds one.
#[verifier::rlimit(40)]
pub proof fn law_rounds_shrink_queue(s: relay::RelayState, rounds: Seq<Round>)
    requires
        between_rounds(s),
        s.egress.batch_size > 0,
    ensures
        drain(s, rounds) matches Some(t) ==> {
            &&& between_rounds(t)
            &&& same_intake(s, t)
            &&& s.table.dom().finite()
            &&& t.table.dom().finite()
            &&& t.table.len() == 0 || t.table.len() + rounds.len() <= s.table.len()
        },
    decreases rounds.len(),
{
    lemma_table_size(s);
    if rounds.len() > 0 {
        let round = rounds.last();
        law_rounds_shrink_queue(s, rounds.drop_last());
        if drain(s, rounds) is Some {
            let t = drain(s, rounds.drop_last())->0;
            if round.batch.len() > 0 {
                law_round(t, round);
            } else {
                law_empty_round(t, round);
                assert(t.table.dom() =~= Set::empty()) by {
                    assert forall|k: Seq<u8>| !t.table.contains_key(k) by {
                        if t.table.contains_key(k) {
                            assert(record::batch_keys(round.batch).contains(k));
                        }
                    }
                }
            }
        }
    }
}

/// The queue drains: after as many rounds as it held entries, it is empty.
pub proof fn law_queue_drains(s: relay::RelayState, rounds: Seq<Round>)
    requires
        between_rounds(s),
        s.egress.batch_size > 0,
        rounds.len() >= s.table.len(),
    ensures
        drain(s, rounds) matches Some(t) ==> {
            &&& between_rounds(t)
            &&& same_intake(s, t)
            &&& t.table == Map::<Seq<u8>, Seq<u8>>::empty()
        },
{
    law_rounds_shrink_queue(s, rounds);
    if let Some(t) = drain(s, rounds) {
        if s.table.len() == 0 {
            assert(t.table.len() == 0);
        }
        assert(t.table.dom() =~= Set::empty());
        assert(t.table =~= Map::<Seq<u8>, Seq<u8>>::empty());
    }
}

/// The batch that a read between two rounds gives.
pub open spec fn next_batch(s: relay::RelayState) -> Seq<record::EntryView> {
    let n = delivery::sent_count(s) as int;
    let left = s.taken.len() - n;
    Seq::new(
        (if left < s.egress.batch_size {
            left
        } else {
            s.egress.batch_size as int
        }) as nat,
        |i: int| delivery::taken_entry(s, n + i),
    )
}

/// A full batch can always be read: the messages that the queue took first of those
/// that are left.
#[verifier::rlimit(40)]
pub proof fn law_next_batch(s: relay::RelayState)
    requires
        between_rounds(s),
    ensures
        is_full_batch(s.table, s.egress.batch_size, next_batch(s)),
{
    let n = delivery::sent_count(s) as int;
    let batch = next_batch(s);
    assert(s.removing is None);
    assert forall|i: int| 0 <= i < batch.len() implies s.table.contains_pair(
        (#[trigger] batch[i]).key,
        batch[i].value,
    ) by {
        let e = delivery::taken_entry(s, n + i);
        assert(s.table.contains_pair(e.key, e.value));
    }
    assert forall|i: int, j: int| 0 <= i < j < batch.len() implies bytes::bytes_less(
        (#[trigger] batch[i]).key,
        (#[trigger] batch[j]).key,
    ) by {
        delivery::lemma_taken_keys(s, n + i, n + j);
    }
    assert forall|k: Seq<u8>| #[trigger]
        s.table.contains_key(k) && !record::batch_keys(batch).contains(k) implies exists|p: int|
        n + batch.len() <= p < s.taken.len() && (#[trigger] delivery::taken_entry(s, p)).key
            == k by {
        let p = choose|p: int|
            n <= p < s.taken.len() && (#[trigger] delivery::taken_entry(s, p)).key == k;
        if p < n + batch.len() {
            assert(record::batch_keys(batch)[p - n] == k);
        }
    }
    assert forall|i: int, k: Seq<u8>|
        0 <= i < batch.len() && #[trigger] s.table.contains_key(k) && !record::batch_keys(
            batch,
        ).contains(k) implies bytes::bytes_less((#[trigger] batch[i]).key, k) by {
        let p = choose|p: int|
            n + batch.len() <= p < s.taken.len() && (#[trigger] delivery::taken_entry(s, p)).key
                == k;
        delivery::lemma_taken_keys(s, n + i, p);
    }
}

/// As many rounds as one likes, each answered with a 2xx status.
pub open spec fn next_rounds(s: relay::RelayState, count: nat) -> Seq<Round>
    decreases count,
{
    if count == 0 {
        Seq::empty()
    } else {
        let earlier = next_rounds(s, (count - 1) as nat);
        earlier.push(Round { batch: next_batch(drain(s, earlier)->0), status: Some(200) })
    }
}

/// The egress task never gets stuck between rounds: however many have passed, there
/// can be one more.
pub proof fn law_rounds_go_on(s: relay::RelayState, count: nat)
    requires
        between_rounds(s),
        s.egress.batch_size > 0,
    ensures
        next_rounds(s, count).len() == count,
        drain(s, next_rounds(s, count)) is Some,
    decreases count,
{
    if count > 0 {
        let earlier = next_rounds(s, (count - 1) as nat);
        let rounds = next_rounds(s, count);
        law_rounds_go_on(s, (count - 1) as nat);
        law_rounds_shrink_queue(s, earlier);
        let t = drain(s, earlier)->0;
        assert(rounds.drop_last() =~= earlier);
        law_next_batch(t);
        if rounds.last().batch.len() > 0 {
            law_round(t, rounds.last());
        } else {
            law_empty_round(t, rounds.last());
        }
    }
}

/// Everything is delivered: after any timely run in which no insert failed and each
/// removal took effect before it was answered, once no insert is under way and the
/// egress task has run as many rounds as the queue still held entries, the queue is
/// empty, and the bodies of the accepted requests, joined in the order of sending,
/// are all messages that arrived, unchanged, in the order of arrival, each once. Once
/// no chunk waits for its stamp either, those are the backlog and the chunks that were
/// read from the pipe.
pub proof fn law_all_is_delivered(
    setup: relay::RelaySetup,
    backlog: Seq<relay::Arrival>,
    inputs: Seq<relay::RelayInput>,
    rounds: Seq<Round>,
)
    requires
        relay::in_stamp_order(backlog),
        egress::batch_size_of(setup.forwarder) > 0,
        relay::timely_run(relay::RelayState::start(setup, backlog), inputs),
        delivery::prompt_run(relay::RelayState::start(setup, backlog), inputs),
        relay::run(relay::RelayState::start(setup, backlog), inputs) matches Some(s) && {
            &&& s.egress.phase is Reading
            &&& s.pending is None
            &&& s.failed == Set::<Seq<u8>>::empty()
            &&& delivery::messages_fit(s)
            &&& rounds.len() >= s.table.len()
            &&& drain(s, rounds) is Some
        },
    ensures
        ({
            let s = relay::run(relay::RelayState::start(setup, backlog), inputs)->0;
            let t = drain(s, rounds)->0;
            &&& t.table == Map::<Seq<u8>, Seq<u8>>::empty()
            &&& t.arrivals == s.arrivals
            &&& record::concat(delivery::bodies_of(t.accepted)) == record::concat(
                delivery::messages_of(t.arrivals),
            )
            &&& s.ingest.phase !is Stamping ==> delivery::messages_of(t.arrivals)
                == delivery::messages_of(backlog) + intake::relay_chunks(inputs)
        }),
{
    let s = relay::run(relay::RelayState::start(setup, backlog), inputs)->0;
    let t = drain(s, rounds)->0;
    delivery::law_run_in_order(setup, backlog, inputs);
    intake::law_run_arrivals_are_chunks(setup, backlog, inputs);
    lemma_batch_size_is_fixed(relay::RelayState::start(setup, backlog), inputs);
    law_queue_drains(s, rounds);
    delivery::lemma_bodies_are_messages(t);
    assert(t.arrivals.take(t.arrivals.len() as int) =~= t.arrivals);
    if s.ingest.phase !is Stamping {
        assert(delivery::messages_of(s.arrivals) + intake::unstamped(s) =~= delivery::messages_of(
            s.arrivals,
        ));
    }
}

proof fn lemma_batch_size_is_fixed(s: relay::RelayState, inputs: Seq<relay::RelayInput>)
    ensures
        relay::run(s, inputs) matches Some(t) ==> t.egress.batch_size == s.egress.batch_size,
    decreases inputs.len(),
{
    if inputs.len() > 0 {
        lemma_batch_size_is_fixed(s, inputs.drop_last());
    }
}

} // verus!
