use winperf_relay::bytes::push_be;
use winperf_relay::record::{
    batch_payload, make_key, make_value, push_message, Entry, HEADER_LEN, KEY_LEN,
};

fn entry(ts: u64, ctr: u64, message: &[u8]) -> Entry {
    Entry { key: make_key(ts, ctr), value: make_value(ts, message) }
}

fn message(value: &[u8]) -> Vec<u8> {
    let mut out = Vec::new();
    push_message(&mut out, &value.to_vec());
    out
}

#[test]
fn sizes() {
    assert_eq!(HEADER_LEN, 12);
    assert_eq!(KEY_LEN, 16);
}

#[test]
fn key_is_time_then_counter_big_endian() {
    assert_eq!(
        make_key(0x0102_0304_0506_0708, 0x1112_1314_1516_1718),
        [1, 2, 3, 4, 5, 6, 7, 8, 0x11, 0x12, 0x13, 0x14, 0x15, 0x16, 0x17, 0x18]
    );
    assert_eq!(make_key(0, 0), [0u8; 16]);
    assert_eq!(make_key(u64::MAX, u64::MAX), [0xffu8; 16]);
}

#[test]
fn key_agrees_with_std_big_endian() {
    for (ts, ctr) in [(0u64, 1u64), (255, 256), (1 << 40, 12_345), (u64::MAX - 1, 1 << 63)] {
        let mut expected = ts.to_be_bytes().to_vec();
        expected.extend_from_slice(&ctr.to_be_bytes());
        assert_eq!(make_key(ts, ctr).to_vec(), expected);
    }
}

#[test]
fn key_order_is_arrival_order() {
    assert!(make_key(1, u64::MAX) < make_key(2, 0));
    assert!(make_key(5, 255) < make_key(5, 256));
    assert!(make_key(255, 0) < make_key(256, 0));
    assert!(make_key(7, 3) == make_key(7, 3));
}

#[test]
fn value_is_header_then_message() {
    assert_eq!(
        make_value(0x0a0b_0c0d_0e0f_0001, b"hey"),
        vec![0x0a, 0x0b, 0x0c, 0x0d, 0x0e, 0x0f, 0, 1, 0, 0, 0, 3, b'h', b'e', b'y']
    );
    assert_eq!(make_value(0, b"").len(), HEADER_LEN);
}

#[test]
fn message_round_trip() {
    for m in [&b""[..], &b"x"[..], &[0u8; 300][..], &[0xffu8; 65_536][..]] {
        assert_eq!(message(&make_value(99, m)), m);
    }
}

#[test]
fn short_values_carry_nothing() {
    assert_eq!(message(&[]), Vec::<u8>::new());
    assert_eq!(message(&[9u8; 11]), Vec::<u8>::new());
    assert_eq!(message(&[0u8; 12]), Vec::<u8>::new());
}

#[test]
fn declared_length_is_clipped_to_what_is_there() {
    let mut value = make_value(1, b"abc");
    value[11] = 200;
    assert_eq!(message(&value), b"abc");
    value[8] = 0xff;
    assert_eq!(message(&value), b"abc");
    value[8] = 0;
    value[11] = 2;
    assert_eq!(message(&value), b"ab");
}

#[test]
fn push_message_appends() {
    let mut out = vec![1, 2];
    push_message(&mut out, &make_value(1, &[3, 4]));
    assert_eq!(out, vec![1, 2, 3, 4]);
}

#[test]
fn payload_is_messages_in_order() {
    let mut batch = vec![entry(1, 0, b"one "), entry(1, 1, b"two "), entry(2, 0, b"three")];
    assert_eq!(batch_payload(&batch), b"one two three");
    batch[1].value.truncate(5);
    assert_eq!(batch_payload(&batch), b"one three");
    assert_eq!(batch_payload(&Vec::new()), Vec::<u8>::new());
}

#[test]
fn big_endian_widths() {
    let mut out = Vec::new();
    push_be(&mut out, 0x0102_0304, 4);
    push_be(&mut out, 0x0102_0304, 2);
    push_be(&mut out, 5, 0);
    assert_eq!(out, vec![1, 2, 3, 4, 3, 4]);
}
