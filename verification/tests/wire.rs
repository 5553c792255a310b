use buildprof::perfetto::proto::InternedString;
use buildprof::perfetto::wire::{measure, Encoder};

const INNER: InternedString = InternedString { iid: 150, value: "ok" };

#[test]
fn writes_nested_messages_without_a_payload_buffer() {
    let mut encoder = Encoder::writer();
    encoder.message(1, &INNER);
    assert_eq!(encoder.take(), [10, 7, 8, 150, 1, 18, 2, b'o', b'k']);
}

#[test]
fn messages_are_measured_before_they_are_written() {
    assert_eq!(measure(&INNER), Some(7));
}

#[test]
fn numbers_take_seven_bits_a_byte() {
    let mut encoder = Encoder::writer();
    encoder.uint(1, 0);
    encoder.uint(16, 127);
    encoder.uint(1, 128);
    encoder.uint(1, u64::MAX);
    assert_eq!(
        encoder.take(),
        [8, 0, 128, 1, 127, 8, 128, 1, 8, 255, 255, 255, 255, 255, 255, 255, 255, 255, 1]
    );
    assert!(encoder.take().is_empty());
}

#[test]
fn negative_numbers_take_ten_bytes() {
    let mut encoder = Encoder::writer();
    encoder.signed(1, -1);
    assert_eq!(encoder.take(), [8, 255, 255, 255, 255, 255, 255, 255, 255, 255, 1]);
    encoder.signed(1, 5);
    encoder.boolean(2, true);
    encoder.boolean(2, false);
    encoder.bytes(3, &[1, 2]);
    assert_eq!(encoder.take(), [8, 5, 16, 1, 16, 0, 26, 2, 1, 2]);
}
