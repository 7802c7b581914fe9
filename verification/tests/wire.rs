use chain_client::error::Error;
use chain_client::wire::{
    append_bytes, read_compact, read_le, signed_max, unsigned_max, write_compact, write_le,
};

#[test]
fn little_endian_of_seven_in_sixteen_bytes() {
    let mut out = Vec::new();
    write_le(&mut out, 7, 16);
    assert_eq!(out, vec![7, 0, 0, 0, 0, 0, 0, 0, 0, 0, 0, 0, 0, 0, 0, 0]);
    assert_eq!(read_le(&out, 0, 16), 7);
}

#[test]
fn compact_lengths_take_one_two_four_or_five_bytes() {
    let cases: Vec<(u32, Vec<u8>)> = vec![
        (0, vec![0x00]),
        (1, vec![0x04]),
        (42, vec![0xa8]),
        (63, vec![0xfc]),
        (64, vec![0x01, 0x01]),
        (69, vec![0x15, 0x01]),
        (16383, vec![0xfd, 0xff]),
        (16384, vec![0x02, 0x00, 0x01, 0x00]),
        (65535, vec![0xfe, 0xff, 0x03, 0x00]),
        (1073741823, vec![0xfe, 0xff, 0xff, 0xff]),
        (1073741824, vec![0x03, 0x00, 0x00, 0x00, 0x40]),
        (u32::MAX, vec![0x03, 0xff, 0xff, 0xff, 0xff]),
    ];
    for (n, bytes) in cases {
        let mut out = Vec::new();
        write_compact(&mut out, n);
        assert_eq!(out, bytes);
        assert_eq!(read_compact(&out, 0), Ok((n, bytes.len())));
    }
}

#[test]
fn the_largest_numbers_of_each_width() {
    assert_eq!(unsigned_max(1), u8::MAX as u128);
    assert_eq!(unsigned_max(2), u16::MAX as u128);
    assert_eq!(unsigned_max(4), u32::MAX as u128);
    assert_eq!(unsigned_max(8), u64::MAX as u128);
    assert_eq!(unsigned_max(16), u128::MAX);
    assert_eq!(signed_max(1), i8::MAX as u128);
    assert_eq!(signed_max(2), i16::MAX as u128);
    assert_eq!(signed_max(4), i32::MAX as u128);
    assert_eq!(signed_max(8), i64::MAX as u128);
    assert_eq!(signed_max(16), i128::MAX as u128);
}

#[test]
fn little_endian_keeps_the_low_bytes_and_appends() {
    let mut out = vec![0xee];
    write_le(&mut out, 0x0102_0304, 2);
    assert_eq!(out, vec![0xee, 0x04, 0x03]);
    write_le(&mut out, 5, 0);
    assert_eq!(out, vec![0xee, 0x04, 0x03]);
    append_bytes(&mut out, &[1, 2]);
    assert_eq!(out, vec![0xee, 0x04, 0x03, 1, 2]);
    assert_eq!(read_le(&out, 1, 2), 0x0304);
    assert_eq!(read_le(&out, 3, 0), 0);
    let all = [0xffu8; 16];
    assert_eq!(read_le(&all, 0, 16), u128::MAX);
}

#[test]
fn a_compact_prefix_is_read_where_it_starts() {
    let bytes = [0xaa, 0x15, 0x01, 0xbb];
    assert_eq!(read_compact(&bytes, 1), Ok((69, 2)));
    assert_eq!(read_compact(&bytes, 4), Err(Error::TruncatedInput));
}

#[test]
fn a_compact_prefix_that_is_cut_short_is_truncated_input() {
    assert_eq!(read_compact(&[], 0), Err(Error::TruncatedInput));
    assert_eq!(read_compact(&[0x15], 0), Err(Error::TruncatedInput));
    assert_eq!(read_compact(&[0x02, 0, 1], 0), Err(Error::TruncatedInput));
    assert_eq!(read_compact(&[0x03, 0, 0, 0], 0), Err(Error::TruncatedInput));
}

#[test]
fn a_compact_prefix_that_is_longer_than_its_number_needs_is_refused() {
    assert_eq!(read_compact(&[0xfd, 0x00], 0), Err(Error::ValueShapeMismatch));
    assert_eq!(read_compact(&[0x01, 0x00], 0), Err(Error::ValueShapeMismatch));
    assert_eq!(read_compact(&[0xfe, 0xff, 0x00, 0x00], 0), Err(Error::ValueShapeMismatch));
    assert_eq!(read_compact(&[0x03, 0xff, 0xff, 0xff, 0x3f], 0), Err(Error::ValueShapeMismatch));
    assert_eq!(read_compact(&[0x07, 0, 0, 0, 0, 1], 0), Err(Error::ValueShapeMismatch));
    assert_eq!(read_compact(&[0x0b, 0, 0, 0, 0, 0, 1], 0), Err(Error::ValueShapeMismatch));
}
