//! Queue entries: the key under which a message waits, and the value that
//! carries it.
//!
//! A key is the arrival time followed by a tie-breaking counter, both big
//! endian, so that the byte order of keys is the order of arrival. A value is a
//! header (arrival time and message length, big endian) followed by the message.

use vstd::arithmetic::power;
use vstd::prelude::*;

use crate::bytes;

verus! {

/// Length of the header in front of a message: arrival time and length.
pub const HEADER_LEN: usize = 12;

/// Length of a queue key: arrival time and counter.
pub const KEY_LEN: usize = 16;

/// The key of a message that arrived at `ts_ns` as number `ctr` of that instant.
pub open spec fn key_bytes(ts_ns: u64, ctr: u64) -> Seq<u8> {
    bytes::be_bytes(ts_ns as nat, 8) + bytes::be_bytes(ctr as nat, 8)
}

/// The value that carries `message`, which arrived at `ts_ns`. The length field
/// has 32 bits and holds the length modulo 2^32.
pub open spec fn value_bytes(ts_ns: u64, message: Seq<u8>) -> Seq<u8> {
    bytes::be_bytes(ts_ns as nat, 8) + bytes::be_bytes(
        message.len() % 0x1_0000_0000,
        4,
    ) + message
}

/// The message length that the header of `value` declares.
pub open spec fn declared_len(value: Seq<u8>) -> nat {
    bytes::be_value(value.subrange(8, HEADER_LEN as int))
}

/// The message that `value` carries: as many bytes behind the header as it
/// declares, or all that are there if they are fewer. A value too short for a
/// header carries nothing.
pub open spec fn message_of(value: Seq<u8>) -> Seq<u8> {
    if value.len() < HEADER_LEN {
        Seq::empty()
    } else {
        let body = value.skip(HEADER_LEN as int);
        if declared_len(value) < body.len() {
            body.take(declared_len(value) as int)
        } else {
            body
        }
    }
}

/// Byte strings one after the other.
pub open spec fn concat(parts: Seq<Seq<u8>>) -> Seq<u8>
    decreases parts.len(),
{
    if parts.len() == 0 {
        Seq::empty()
    } else {
        concat(parts.drop_last()) + parts.last()
    }
}

/// An entry of the queue.
#[derive(Clone, Debug)]
pub struct Entry {
    pub key: [u8; KEY_LEN],
    pub value: Vec<u8>,
}

/// What an [`Entry`] holds.
#[verifier::ext_equal]
pub struct EntryView {
    pub key: Seq<u8>,
    pub value: Seq<u8>,
}

impl View for Entry {
    type V = EntryView;

    open spec fn view(&self) -> EntryView {
        EntryView { key: self.key@, value: self.value@ }
    }
}

/// What the entries of a batch hold.
pub open spec fn batch_view(batch: Seq<Entry>) -> Seq<EntryView> {
    batch.map_values(|e: Entry| e@)
}

/// The keys of a batch.
pub open spec fn batch_keys(batch: Seq<EntryView>) -> Seq<Seq<u8>> {
    batch.map_values(|e: EntryView| e.key)
}

/// The body under which a batch is sent: its messages, in order.
pub open spec fn payload(batch: Seq<EntryView>) -> Seq<u8> {
    concat(batch.map_values(|e: EntryView| message_of(e.value)))
}

/// The queue key of a message: its arrival time, then the counter.
pub fn make_key(ts_ns: u64, ctr: u64) -> (key: [u8; KEY_LEN])
    ensures
        key@ == key_bytes(ts_ns, ctr),
{
    let mut joined: Vec<u8> = Vec::new();
    bytes::push_be(&mut joined, ts_ns, 8);
    bytes::push_be(&mut joined, ctr, 8);
    proof {
        bytes::lemma_be_bytes_len(ts_ns as nat, 8);
        bytes::lemma_be_bytes_len(ctr as nat, 8);
    }
    let mut key: [u8; KEY_LEN] = [0u8; KEY_LEN];
    let mut i: usize = 0;
    while i < KEY_LEN
        invariant
            i <= KEY_LEN,
            joined@.len() == KEY_LEN,
            forall|j: int| 0 <= j < i ==> key@[j] == joined@[j],
        decreases KEY_LEN - i,
    {
        key[i] = joined[i];
        i += 1;
    }
    assert(key@ =~= key_bytes(ts_ns, ctr));
    key
}

/// The queue value that carries `message`.
pub fn make_value(ts_ns: u64, message: &[u8]) -> (value: Vec<u8>)
    ensures
        value@ == value_bytes(ts_ns, message@),
{
    let mut value: Vec<u8> = Vec::new();
    bytes::push_be(&mut value, ts_ns, 8);
    bytes::push_be(&mut value, message.len() as u64 % 0x1_0000_0000, 4);
    value.extend_from_slice(message);
    assert(value@ =~= value_bytes(ts_ns, message@));
    value
}

/// Appends the message that `value` carries to `out`.
pub fn push_message(out: &mut Vec<u8>, value: &Vec<u8>)
    ensures
        final(out)@ == old(out)@ + message_of(value@),
{
    if value.len() >= HEADER_LEN {
        let declared: u32 = (value[8] as u32) * 0x100_0000 + (value[9] as u32) * 0x1_0000 + (
        value[10] as u32) * 0x100 + value[11] as u32;
        assert(declared == declared_len(value@)) by {
            reveal_with_fuel(bytes::be_value, 5);
            let field = value@.subrange(8, HEADER_LEN as int);
            assert(field.drop_last().drop_last().drop_last().drop_last().len() == 0);
        }
        let body_len: usize = value.len() - HEADER_LEN;
        let end: usize = if (declared as u64) < body_len as u64 {
            HEADER_LEN + declared as usize
        } else {
            value.len()
        };
        out.extend_from_slice(&value.as_slice()[HEADER_LEN..end]);
    }
    assert(out@ =~= old(out)@ + message_of(value@));
}

/// The body under which `batch` is sent.
pub fn batch_payload(batch: &Vec<Entry>) -> (body: Vec<u8>)
    ensures
        body@ == payload(batch_view(batch@)),
        body@ == Seq::new(batch@.len(), |i: int| message_of(batch@[i].value@)).flatten(),
{
    let mut body: Vec<u8> = Vec::new();
    let ghost parts = batch_view(batch@).map_values(|e: EntryView| message_of(e.value));
    let mut i: usize = 0;
    while i < batch.len()
        invariant
            i <= batch@.len(),
            parts == batch_view(batch@).map_values(|e: EntryView| message_of(e.value)),
            body@ == concat(parts.take(i as int)),
        decreases batch@.len() - i,
    {
        push_message(&mut body, &batch[i].value);
        assert(parts.take(i + 1).drop_last() =~= parts.take(i as int));
        i += 1;
    }
    proof {
        assert(parts.take(i as int) =~= parts);
        assert(parts =~= Seq::new(batch@.len(), |i: int| message_of(batch@[i].value@)));
        law_concat_is_append(parts);
    }
    body
}

/// The byte order of keys is the order of arrival: first by time, then by
/// counter.
pub proof fn law_key_order(ts1: u64, ctr1: u64, ts2: u64, ctr2: u64)
    ensures
        bytes::bytes_less(key_bytes(ts1, ctr1), key_bytes(ts2, ctr2)) <==> ts1 < ts2 || (ts1
            == ts2 && ctr1 < ctr2),
{
    bytes::lemma_byte_spans();
    bytes::lemma_be_round_trip(ts1 as nat, 8);
    bytes::lemma_be_round_trip(ts2 as nat, 8);
    bytes::lemma_be_round_trip(ctr1 as nat, 8);
    bytes::lemma_be_round_trip(ctr2 as nat, 8);
    let p = bytes::be_bytes(ts1 as nat, 8);
    let q = bytes::be_bytes(ts2 as nat, 8);
    let s = bytes::be_bytes(ctr1 as nat, 8);
    let t = bytes::be_bytes(ctr2 as nat, 8);
    bytes::lemma_bytes_order_of_concat(p, s, q, t);
    bytes::lemma_bytes_order_is_value_order(p, q);
    bytes::lemma_bytes_order_is_value_order(s, t);
}

/// Two messages with the same key arrived at the same time with the same counter.
pub proof fn law_key_injective(ts1: u64, ctr1: u64, ts2: u64, ctr2: u64)
    requires
        key_bytes(ts1, ctr1) == key_bytes(ts2, ctr2),
    ensures
        ts1 == ts2,
        ctr1 == ctr2,
{
    law_key_order(ts1, ctr1, ts2, ctr2);
    law_key_order(ts2, ctr2, ts1, ctr1);
    bytes::lemma_bytes_less_irreflexive(key_bytes(ts1, ctr1));
}

/// Behind the header of a value stands the message, whatever its length.
pub proof fn law_message_behind_header(ts_ns: u64, message: Seq<u8>)
    ensures
        value_bytes(ts_ns, message).skip(HEADER_LEN as int) == message,
{
    bytes::lemma_be_bytes_len(ts_ns as nat, 8);
    bytes::lemma_be_bytes_len(message.len() % 0x1_0000_0000, 4);
    assert(value_bytes(ts_ns, message).skip(HEADER_LEN as int) =~= message);
}

/// A message read back from its value is the message that was written, as long
/// as its length fits the 32-bit length field.
pub proof fn law_message_round_trip(ts_ns: u64, message: Seq<u8>)
    requires
        message.len() < 0x1_0000_0000,
    ensures
        message_of(value_bytes(ts_ns, message)) == message,
{
    bytes::lemma_byte_spans();
    bytes::lemma_be_bytes_len(ts_ns as nat, 8);
    bytes::lemma_be_round_trip(message.len(), 4);
    let value = value_bytes(ts_ns, message);
    assert(value.subrange(8, HEADER_LEN as int) =~= bytes::be_bytes(message.len(), 4));
    assert(message_of(value) =~= message);
}

/// What is sent of an entry never exceeds what the entry holds behind its
/// header, whatever length the header declares.
pub proof fn law_message_within_value(value: Seq<u8>)
    ensures
        value.len() < HEADER_LEN ==> message_of(value).len() == 0,
        value.len() >= HEADER_LEN ==> message_of(value).is_prefix_of(value.skip(HEADER_LEN as int)),
{
}

/// A key is 16 bytes: the time as a big-endian number of 8 bytes, then the counter as
/// another.
pub proof fn law_key_layout(ts_ns: u64, ctr: u64, i: int)
    requires
        0 <= i < 16,
    ensures
        key_bytes(ts_ns, ctr).len() == 16,
        i < 8 ==> key_bytes(ts_ns, ctr)[i] as int == (ts_ns as int / power::pow(
            256,
            (7 - i) as nat,
        )) % 256,
        i >= 8 ==> key_bytes(ts_ns, ctr)[i] as int == (ctr as int / power::pow(
            256,
            (15 - i) as nat,
        )) % 256,
{
    bytes::lemma_be_bytes_len(ts_ns as nat, 8);
    bytes::lemma_be_bytes_len(ctr as nat, 8);
    if i < 8 {
        bytes::law_be_digit(ts_ns as nat, 8, i);
    } else {
        bytes::law_be_digit(ctr as nat, 8, i - 8);
    }
}

/// A value is a header of 12 bytes and the message: the time as a big-endian number of
/// 8 bytes, the length as one of 4 bytes, then each byte of the message, unchanged.
pub proof fn law_value_layout(ts_ns: u64, message: Seq<u8>, i: int)
    requires
        0 <= i < 12 + message.len(),
    ensures
        value_bytes(ts_ns, message).len() == 12 + message.len(),
        i < 8 ==> value_bytes(ts_ns, message)[i] as int == (ts_ns as int / power::pow(
            256,
            (7 - i) as nat,
        )) % 256,
        8 <= i < 12 ==> value_bytes(ts_ns, message)[i] as int == (message.len() as int % 4294967296
            / power::pow(256, (11 - i) as nat)) % 256,
        i >= 12 ==> value_bytes(ts_ns, message)[i] == message[i - 12],
{
    bytes::lemma_be_bytes_len(ts_ns as nat, 8);
    bytes::lemma_be_bytes_len(message.len() % 4294967296, 4);
    if i < 8 {
        bytes::law_be_digit(ts_ns as nat, 8, i);
    } else if i < 12 {
        bytes::law_be_digit(message.len() % 4294967296, 4, i - 8);
    }
}

/// The message of a value is the bytes from place 12 on, as many as bytes 8 to 11 say
/// as a big-endian number, or all that are there if they are fewer. A value of fewer
/// than 12 bytes carries nothing.
pub proof fn law_message_bytes(value: Seq<u8>)
    ensures
        value.len() < 12 ==> message_of(value) == Seq::<u8>::empty(),
        value.len() >= 12 ==> ({
            let end = 12 + value[8] * 16777216 + value[9] * 65536 + value[10] * 256 + value[11];
            &&& end <= value.len() ==> message_of(value) == value.subrange(12, end)
            &&& end > value.len() ==> message_of(value) == value.subrange(12, value.len() as int)
        }),
{
    if value.len() >= 12 {
        reveal_with_fuel(bytes::be_value, 5);
        let field = value.subrange(8, 12);
        assert(field.drop_last().drop_last().drop_last().drop_last().len() == 0);
        let end = 12 + value[8] * 16777216 + value[9] * 65536 + value[10] * 256 + value[11];
        assert(declared_len(value) == end - 12);
        if end <= value.len() {
            assert(message_of(value) =~= value.subrange(12, end));
        } else {
            assert(message_of(value) =~= value.subrange(12, value.len() as int));
        }
    }
}

/// What [`batch_view`] and [`batch_keys`] say of a batch: entry by entry, in order, its
/// key and its value.
pub proof fn law_batch_entry_by_entry(batch: Seq<Entry>)
    ensures
        batch_view(batch).len() == batch.len(),
        forall|i: int|
            0 <= i < batch.len() ==> {
                &&& (#[trigger] batch_view(batch)[i]).key == batch[i].key@
                &&& batch_view(batch)[i].value == batch[i].value@
            },
        batch_keys(batch_view(batch)).len() == batch.len(),
        forall|i: int|
            0 <= i < batch.len() ==> #[trigger] batch_keys(batch_view(batch))[i] == batch[i].key@,
{
}

/// The keys of a batch are those of its entries, one for each, in order.
pub proof fn law_batch_keys(batch: Seq<EntryView>)
    ensures
        batch_keys(batch).len() == batch.len(),
        forall|i: int| 0 <= i < batch.len() ==> #[trigger] batch_keys(batch)[i] == batch[i].key,
{
}

/// Joining appends: nothing gives nothing, one part gives that part, two give the one
/// and then the other, and a list split in two gives what its halves give, one after
/// the other.
pub proof fn law_joining_appends(a: Seq<Seq<u8>>, b: Seq<Seq<u8>>, p: Seq<u8>, q: Seq<u8>)
    ensures
        concat(Seq::empty()) == Seq::<u8>::empty(),
        concat(seq![p]) == p,
        concat(seq![p, q]) == p + q,
        concat(a + b) == concat(a) + concat(b),
    decreases b.len(),
{
    reveal_with_fuel(concat, 3);
    assert(seq![p].drop_last() =~= Seq::<Seq<u8>>::empty());
    assert(seq![p, q].drop_last() =~= seq![p]);
    assert(concat(seq![p]) =~= p);
    if b.len() == 0 {
        assert(a + b =~= a);
        assert(concat(a + b) =~= concat(a) + concat(b));
    } else {
        law_joining_appends(a, b.drop_last(), p, q);
        assert((a + b).drop_last() =~= a + b.drop_last());
        assert(concat(a + b) =~= concat(a) + concat(b));
    }
}

/// Joining parts is flattening their list.
pub proof fn law_concat_is_append(parts: Seq<Seq<u8>>)
    ensures
        concat(parts) == parts.flatten(),
    decreases parts.len(),
{
    parts.lemma_flatten_and_flatten_alt_are_equivalent();
    if parts.len() > 0 {
        law_concat_is_append(parts.drop_last());
        parts.drop_last().lemma_flatten_and_flatten_alt_are_equivalent();
    }
}

/// Byte `j` of message `i` of a batch stands unchanged in its body, behind the summed lengths of the messages before it.
pub proof fn law_body_places(batch: Seq<EntryView>, i: int, j: int)
    requires
        0 <= i < batch.len(),
        0 <= j < message_of(batch[i].value).len(),
    ensures
        ({
            let sum = |total: int, e: EntryView| total + message_of(e.value).len();
            let at = batch.take(i).fold_left(0int, sum) + j;
            &&& 0 <= at < payload(batch).len()
            &&& payload(batch)[at] == message_of(batch[i].value)[j]
        }),
{
    let sum = |total: int, e: EntryView| total + message_of(e.value).len();
    law_body_len(batch);
    law_body_len(batch.take(i));
    law_body_splits(batch.take(i), batch.skip(i));
    law_body_splits(batch.skip(i).take(1), batch.skip(i + 1));
    assert(batch =~= batch.take(i) + batch.skip(i));
    assert(batch.skip(i) =~= batch.skip(i).take(1) + batch.skip(i + 1));
    law_body_of_one(batch.skip(i).take(1));
    assert(batch.skip(i).take(1)[0] == batch[i]);
}

/// The body of a batch has the summed length of its messages.
pub proof fn law_body_len(batch: Seq<EntryView>)
    ensures
        payload(batch).len() == batch.fold_left(
            0int,
            |total: int, e: EntryView| total + message_of(e.value).len(),
        ),
    decreases batch.len(),
{
    let carried = |e: EntryView| message_of(e.value);
    if batch.len() > 0 {
        law_body_len(batch.drop_last());
        assert(batch.map_values(carried).drop_last() =~= batch.drop_last().map_values(carried));
    }
}

/// The body of a batch of one is the message of its entry.
pub proof fn law_body_of_one(batch: Seq<EntryView>)
    requires
        batch.len() == 1,
    ensures
        payload(batch) == message_of(batch[0].value),
{
    let m = message_of(batch[0].value);
    law_joining_appends(Seq::empty(), Seq::empty(), m, m);
    assert(batch.map_values(|e: EntryView| message_of(e.value)) =~= seq![m]);
}

/// The body of a batch is that of its first part and then that of the rest, wherever it
/// is split.
pub proof fn law_body_splits(a: Seq<EntryView>, b: Seq<EntryView>)
    ensures
        payload(a + b) == payload(a) + payload(b),
{
    let carried = |e: EntryView| message_of(e.value);
    law_joining_appends(
        a.map_values(carried),
        b.map_values(carried),
        Seq::empty(),
        Seq::empty(),
    );
    assert((a + b).map_values(carried) =~= a.map_values(carried) + b.map_values(carried));
}

} // verus!
