//! Arrival stamps: a time that never runs backwards, and a counter that tells
//! apart the messages of one instant.

use vstd::arithmetic::power;
use vstd::prelude::*;

use crate::record;

verus! {

/// The stamp of one message.
#[derive(Clone, Copy, Debug, PartialEq, Eq, Structural)]
pub struct Stamp {
    pub ts_ns: u64,
    pub ctr: u64,
}

impl Stamp {
    /// The queue key that this stamp gives.
    pub open spec fn key(self) -> Seq<u8> {
        record::key_bytes(self.ts_ns, self.ctr)
    }

    /// Both the time and the counter at zero: where every clock starts.
    pub open spec fn zero() -> Stamp {
        Stamp { ts_ns: 0, ctr: 0 }
    }

    /// `self` was given before `other`.
    pub open spec fn before(self, other: Stamp) -> bool {
        self.ts_ns < other.ts_ns || (self.ts_ns == other.ts_ns && self.ctr < other.ctr)
    }

    /// The stamp that follows `self` when the system clock shows `now_nanos`
    /// nanoseconds, of which 64 bits are kept. A reading behind the last stamp
    /// counts as the time of that stamp. A new instant starts the counter at
    /// zero, the same instant advances it, modulo 2^64.
    pub open spec fn successor(self, now_nanos: u128) -> Stamp {
        let now = now_nanos as nat % 0x1_0000_0000_0000_0000;
        if now > self.ts_ns {
            Stamp { ts_ns: now as u64, ctr: 0 }
        } else {
            Stamp {
                ts_ns: self.ts_ns,
                ctr: ((self.ctr + 1) % 0x1_0000_0000_0000_0000) as u64,
            }
        }
    }
}

/// The stamps that a clock whose last stamp was `last` gives to messages that
/// arrive at the system times `readings`.
pub open spec fn stamps(last: Stamp, readings: Seq<u128>) -> Seq<Stamp>
    decreases readings.len(),
{
    if readings.len() == 0 {
        Seq::empty()
    } else {
        let before = stamps(last, readings.drop_last());
        before.push(last_of(last, before).successor(readings.last()))
    }
}

/// The last of `given`, or `start` if nothing was given yet.
pub open spec fn last_of(start: Stamp, given: Seq<Stamp>) -> Stamp {
    if given.len() == 0 {
        start
    } else {
        given.last()
    }
}

/// Stamps messages as they arrive.
#[derive(Debug)]
pub struct ArrivalClock {
    last: Stamp,
}

impl View for ArrivalClock {
    type V = Stamp;

    /// The last stamp given.
    closed spec fn view(&self) -> Stamp {
        self.last
    }
}

impl ArrivalClock {
    /// A clock that has given no stamp yet.
    pub fn new() -> (clock: Self)
        ensures
            clock@ == Stamp::zero(),
    {
        Self { last: Stamp { ts_ns: 0, ctr: 0 } }
    }

    /// Stamps a message that arrives when the system clock shows `now_nanos`.
    pub fn stamp(&mut self, now_nanos: u128) -> (stamp: Stamp)
        ensures
            stamp == old(self)@.successor(now_nanos),
            final(self)@ == stamp,
    {
        let mut now_ns: u64 = (now_nanos % 0x1_0000_0000_0000_0000) as u64;
        if now_ns < self.last.ts_ns {
            now_ns = self.last.ts_ns;
        }
        let ctr: u64 = if now_ns != self.last.ts_ns {
            0
        } else {
            self.last.ctr.wrapping_add(1)
        };
        self.last = Stamp { ts_ns: now_ns, ctr };
        self.last
    }
}

/// Each stamp comes after the one before it, unless the counter of one instant
/// runs over.
pub proof fn law_stamps_advance(last: Stamp, now_nanos: u128)
    requires
        last.ctr < u64::MAX || now_nanos as nat % 0x1_0000_0000_0000_0000 > last.ts_ns,
    ensures
        last.before(last.successor(now_nanos)),
{
}

/// Time in stamps never runs backwards, whatever the system clock does.
pub proof fn law_time_monotone(last: Stamp, now_nanos: u128)
    ensures
        last.ts_ns <= last.successor(now_nanos).ts_ns,
{
}

proof fn lemma_stamps_len(last: Stamp, readings: Seq<u128>)
    ensures
        stamps(last, readings).len() == readings.len(),
    decreases readings.len(),
{
    if readings.len() > 0 {
        lemma_stamps_len(last, readings.drop_last());
    }
}

/// The counter of a stamp is at most the number of stamps given.
proof fn lemma_counter_bound(readings: Seq<u128>)
    requires
        readings.len() <= u64::MAX,
    ensures
        last_of(Stamp::zero(), stamps(Stamp::zero(), readings)).ctr <= readings.len(),
    decreases readings.len(),
{
    if readings.len() > 0 {
        lemma_counter_bound(readings.drop_last());
    }
}

/// Messages of one run get keys in strictly ascending byte order, in the order in
/// which they arrive, up to 2^64 - 1 of them.
pub proof fn law_keys_ascend(readings: Seq<u128>, i: int, j: int)
    requires
        readings.len() <= u64::MAX,
        0 <= i < j < readings.len(),
    ensures
        stamps(Stamp::zero(), readings).len() == readings.len(),
        crate::bytes::bytes_less(
            stamps(Stamp::zero(), readings)[i].key(),
            stamps(Stamp::zero(), readings)[j].key(),
        ),
{
    lemma_stamps_len(Stamp::zero(), readings);
    lemma_stamps_ordered(readings, i, j);
    let a = stamps(Stamp::zero(), readings)[i];
    let b = stamps(Stamp::zero(), readings)[j];
    record::law_key_order(a.ts_ns, a.ctr, b.ts_ns, b.ctr);
}

proof fn lemma_stamps_ordered(readings: Seq<u128>, i: int, j: int)
    requires
        readings.len() <= u64::MAX,
        0 <= i < j < readings.len(),
    ensures
        stamps(Stamp::zero(), readings)[i].before(stamps(Stamp::zero(), readings)[j]),
    decreases readings.len(),
{
    let earlier = readings.drop_last();
    let before = stamps(Stamp::zero(), earlier);
    lemma_stamps_len(Stamp::zero(), readings);
    lemma_stamps_len(Stamp::zero(), earlier);
    if j < earlier.len() {
        lemma_stamps_ordered(earlier, i, j);
    } else {
        lemma_counter_bound(earlier);
        law_stamps_advance(before.last(), readings.last());
        if i < earlier.len() - 1 {
            lemma_stamps_ordered(earlier, i, earlier.len() - 1);
        }
    }
}

/// Stamps are ordered as the numbers that have the time as their high and the counter
/// as their low 64 bits.
pub proof fn law_before_is_number_order(a: Stamp, b: Stamp)
    ensures
        a.before(b) <==> a.ts_ns * 18446744073709551616 + a.ctr < b.ts_ns * 18446744073709551616
            + b.ctr,
{
}

/// A stamp shows the later of the time of the one before and the low 64 bits of the
/// system time. Its counter is zero where the time is new, and else one more than that
/// of the stamp before, or zero behind the last of 2^64.
pub proof fn law_next_stamp(last: Stamp, now_nanos: u128)
    ensures
        ({
            let next = last.successor(now_nanos);
            let now = now_nanos as int % 18446744073709551616;
            &&& next.ts_ns >= last.ts_ns
            &&& next.ts_ns >= now
            &&& next.ts_ns == last.ts_ns || next.ts_ns == now
            &&& next.ts_ns != last.ts_ns ==> next.ctr == 0
            &&& next.ts_ns == last.ts_ns && last.ctr < 18446744073709551615 ==> next.ctr == last.ctr
                + 1
            &&& next.ts_ns == last.ts_ns && last.ctr == 18446744073709551615 ==> next.ctr == 0
        }),
{
}

/// Each stamp follows the one before it, at the system time of its own message.
pub proof fn law_stamps_one_by_one(last: Stamp, readings: Seq<u128>, i: int)
    requires
        0 <= i < readings.len(),
    ensures
        stamps(last, readings).len() == readings.len(),
        i == 0 ==> stamps(last, readings)[0] == last.successor(readings[0]),
        i > 0 ==> stamps(last, readings)[i] == stamps(last, readings)[i - 1].successor(
            readings[i],
        ),
    decreases readings.len(),
{
    lemma_stamps_len(last, readings);
    let earlier = readings.drop_last();
    lemma_stamps_len(last, earlier);
    if i < earlier.len() {
        law_stamps_one_by_one(last, earlier, i);
    }
}

/// A clock starts at time zero, with no message of that instant counted.
pub proof fn law_clock_start()
    ensures
        Stamp::zero().ts_ns == 0,
        Stamp::zero().ctr == 0,
{
}

/// The key of a stamp is its time and then its counter, each as a big-endian number of
/// 8 bytes.
pub proof fn law_stamp_key(stamp: Stamp, i: int)
    requires
        0 <= i < 16,
    ensures
        stamp.key().len() == 16,
        i < 8 ==> stamp.key()[i] as int == (stamp.ts_ns as int / power::pow(256, (7 - i) as nat))
            % 256,
        i >= 8 ==> stamp.key()[i] as int == (stamp.ctr as int / power::pow(256, (15 - i) as nat))
            % 256,
{
    record::law_key_layout(stamp.ts_ns, stamp.ctr, i);
}

} // verus!
