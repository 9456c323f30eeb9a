use base_sys::wire::{decode_length, encode_length, LENGTH_BYTES};

#[test]
fn length_stands_lowest_byte_first() {
    assert_eq!(encode_length(0), vec![0, 0, 0, 0, 0, 0, 0, 0]);
    assert_eq!(encode_length(0x0102_0304_0506_0708), vec![8, 7, 6, 5, 4, 3, 2, 1]);
    assert_eq!(encode_length(u64::MAX), vec![0xff; LENGTH_BYTES]);
    assert_eq!(decode_length(&vec![0x63, 0, 0, 0, 0, 0, 0, 0]), 99);
    assert_eq!(decode_length(&vec![0, 0, 0, 0, 0, 0, 0, 0x80]), 1 << 63);
}

#[test]
fn length_survives_the_wire() {
    for len in [0, 1, 255, 256, 65_535, 1 << 32, u64::MAX - 1, u64::MAX] {
        let bytes = encode_length(len);
        assert_eq!(bytes, len.to_le_bytes().to_vec());
        assert_eq!(decode_length(&bytes), len);
    }
}
