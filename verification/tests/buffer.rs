use av1_obu_parser::buffer::Buffer;
use av1_obu_parser::obu::ObuError;

#[test]
fn get_bit_reads_most_significant_bit_first() {
    let bytes = [0xA5u8];
    let mut buf = Buffer::new(&bytes);
    let expected = [true, false, true, false, false, true, false, true];
    for bit in expected {
        assert_eq!(buf.get_bit(), Ok(bit));
    }
    assert!(buf.is_exhausted());
    assert_eq!(buf.get_bit(), Err(ObuError::OutOfBounds));
    assert_eq!(buf.byte_position(), 1);
    assert_eq!(buf.bit_offset(), 0);
}

#[test]
fn get_bits_reads_fields_across_bytes() {
    let bytes = [0b1011_0011u8, 0b0101_1100, 0xFF];
    let mut buf = Buffer::new(&bytes);
    assert_eq!(buf.get_bits(3), Ok(0b101));
    assert_eq!(buf.get_bits(7), Ok(0b1_0011_01));
    assert_eq!(buf.byte_position(), 1);
    assert_eq!(buf.bit_offset(), 2);
    assert_eq!(buf.get_bits(14), Ok(0b01_1100_1111_1111));
    assert!(buf.is_exhausted());
}

#[test]
fn get_bits_reads_thirty_two_bits() {
    let bytes = [0xDEu8, 0xAD, 0xBE, 0xEF, 0x01];
    let mut buf = Buffer::new(&bytes);
    assert_eq!(buf.get_bits(32), Ok(0xDEAD_BEEF));
    assert_eq!(buf.byte_position(), 4);
    assert_eq!(buf.get_bits(8), Ok(1));
}

#[test]
fn get_bits_at_an_offset_reads_thirty_two_bits() {
    let bytes = [0x0Fu8, 0xFF, 0xFF, 0xFF, 0xF0];
    let mut buf = Buffer::new(&bytes);
    assert_eq!(buf.seek_bits(4), Ok(()));
    assert_eq!(buf.get_bits(32), Ok(0xFFFF_FFFF));
    assert_eq!(buf.get_bits(4), Ok(0));
}

#[test]
fn get_bits_of_no_bits_reads_nothing() {
    let bytes = [0xFFu8];
    let mut buf = Buffer::new(&bytes);
    assert_eq!(buf.get_bits(0), Ok(0));
    assert_eq!(buf.byte_position(), 0);
    assert_eq!(buf.bit_offset(), 0);
}

#[test]
fn reading_nine_bits_with_fewer_left_fails() {
    let bytes = [0xFFu8];
    let mut buf = Buffer::new(&bytes);
    assert_eq!(buf.get_bits(9), Err(ObuError::OutOfBounds));
    assert_eq!(buf.byte_position(), 0);
    assert_eq!(buf.bit_offset(), 0);
    assert_eq!(buf.get_bits(8), Ok(0xFF));

    let longer = [0x12u8, 0x34];
    let mut buf = Buffer::new(&longer);
    assert_eq!(buf.get_bits(8), Ok(0x12));
    assert_eq!(buf.get_bits(9), Err(ObuError::OutOfBounds));
    assert_eq!(buf.byte_position(), 1);
    assert_eq!(buf.bit_offset(), 0);
    assert_eq!(buf.get_bits(8), Ok(0x34));
}

#[test]
fn reading_from_no_bytes_fails() {
    let bytes: [u8; 0] = [];
    let mut buf = Buffer::new(&bytes);
    assert!(buf.is_exhausted());
    assert_eq!(buf.get_bit(), Err(ObuError::OutOfBounds));
    assert_eq!(buf.get_bits(1), Err(ObuError::OutOfBounds));
    assert_eq!(buf.get_leb128(), Err(ObuError::OutOfBounds));
    assert_eq!(buf.seek_bits(1), Err(ObuError::OutOfBounds));
    assert_eq!(buf.seek_bits(0), Ok(()));
}

#[test]
fn rereading_after_seeking_back_gives_the_same_value() {
    let bytes = [0x9Cu8, 0x3A, 0xE7, 0x51, 0x0B, 0xF2];
    let mut start: isize = 0;
    while start <= 16 {
        let mut n: usize = 1;
        while n <= 32 {
            let mut buf = Buffer::new(&bytes);
            assert_eq!(buf.seek_bits(start), Ok(()));
            let first = buf.get_bits(n).unwrap();
            assert_eq!(buf.seek_bits(-(n as isize)), Ok(()));
            assert_eq!(buf.byte_position(), (start / 8) as usize);
            assert_eq!(buf.bit_offset(), (start % 8) as u8);
            assert_eq!(buf.get_bits(n), Ok(first));
            n += 1;
        }
        start += 1;
    }
}

#[test]
fn seek_bits_moves_both_ways_within_the_bytes() {
    let bytes = [0u8, 0, 0];
    let mut buf = Buffer::new(&bytes);
    assert_eq!(buf.seek_bits(13), Ok(()));
    assert_eq!(buf.byte_position(), 1);
    assert_eq!(buf.bit_offset(), 5);
    assert_eq!(buf.seek_bits(-6), Ok(()));
    assert_eq!(buf.byte_position(), 0);
    assert_eq!(buf.bit_offset(), 7);
    assert_eq!(buf.seek_bits(17), Ok(()));
    assert!(buf.is_exhausted());
    assert_eq!(buf.byte_position(), 3);
    assert_eq!(buf.bit_offset(), 0);
    assert_eq!(buf.seek_bits(-24), Ok(()));
    assert_eq!(buf.byte_position(), 0);
    assert_eq!(buf.bit_offset(), 0);
}

#[test]
fn seek_bits_past_either_end_fails_and_stays() {
    let bytes = [0u8, 0];
    let mut buf = Buffer::new(&bytes);
    assert_eq!(buf.seek_bits(5), Ok(()));
    assert_eq!(buf.seek_bits(12), Err(ObuError::OutOfBounds));
    assert_eq!(buf.seek_bits(-6), Err(ObuError::OutOfBounds));
    assert_eq!(buf.seek_bits(isize::MAX), Err(ObuError::OutOfBounds));
    assert_eq!(buf.seek_bits(isize::MIN), Err(ObuError::OutOfBounds));
    assert_eq!(buf.byte_position(), 0);
    assert_eq!(buf.bit_offset(), 5);
    assert_eq!(buf.seek_bits(11), Ok(()));
    assert!(buf.is_exhausted());
}

#[test]
fn leb128_reads_standard_encodings() {
    let cases: [(&[u8], u64); 7] = [
        (&[0x00], 0),
        (&[0x7F], 127),
        (&[0x80, 0x01], 128),
        (&[0xE5, 0x8E, 0x26], 624_485),
        (&[0xFF, 0xFF, 0x03], 65_535),
        (&[0x80, 0x80, 0x80, 0x80, 0x08], 0x8000_0000),
        (&[0xFF, 0xFF, 0xFF, 0xFF, 0x0F], 0xFFFF_FFFF),
    ];
    for (encoding, value) in cases {
        let mut bytes = vec![0xAAu8];
        bytes.extend_from_slice(encoding);
        bytes.push(0x55);
        let mut buf = Buffer::new(&bytes);
        assert_eq!(buf.seek_bits(8), Ok(()));
        assert_eq!(buf.get_leb128(), Ok(value));
        assert_eq!(buf.byte_position(), 1 + encoding.len());
        assert_eq!(buf.bit_offset(), 0);
        assert_eq!(buf.get_bits(8), Ok(0x55));
    }
}

#[test]
fn leb128_accepts_padded_encodings() {
    let bytes = [0x81u8, 0x80, 0x00, 0x07];
    let mut buf = Buffer::new(&bytes);
    assert_eq!(buf.get_leb128(), Ok(1));
    assert_eq!(buf.byte_position(), 3);
    assert_eq!(buf.get_leb128(), Ok(7));
    assert!(buf.is_exhausted());
}

#[test]
fn leb128_stops_after_eight_groups() {
    let bytes = [0xFFu8, 0xFF, 0xFF, 0xFF, 0xFF, 0xFF, 0xFF, 0xFF, 0x01];
    let mut buf = Buffer::new(&bytes);
    assert_eq!(buf.get_leb128(), Ok(0x00FF_FFFF_FFFF_FFFF));
    assert_eq!(buf.byte_position(), 8);
    assert_eq!(buf.get_leb128(), Ok(1));

    let bytes = [0x80u8, 0x80, 0x80, 0x80, 0x80, 0x80, 0x80, 0x81];
    let mut buf = Buffer::new(&bytes);
    assert_eq!(buf.get_leb128(), Ok(1 << 49));
    assert!(buf.is_exhausted());
}

#[test]
fn leb128_without_a_last_group_fails_and_stays() {
    let bytes = [0x00u8, 0x80, 0xFF, 0x80];
    let mut buf = Buffer::new(&bytes);
    assert_eq!(buf.seek_bits(8), Ok(()));
    assert_eq!(buf.get_leb128(), Err(ObuError::OutOfBounds));
    assert_eq!(buf.byte_position(), 1);
    assert_eq!(buf.bit_offset(), 0);
    assert_eq!(buf.get_bits(8), Ok(0x80));
}

#[test]
fn leb128_reads_groups_from_any_bit() {
    // Four bits, then the groups 0x85 0x01 spread over three bytes.
    let bytes = [0xF8u8, 0x50, 0x1F];
    let mut buf = Buffer::new(&bytes);
    assert_eq!(buf.get_bits(4), Ok(0xF));
    assert_eq!(buf.get_leb128(), Ok(5 + 128));
    assert_eq!(buf.byte_position(), 2);
    assert_eq!(buf.bit_offset(), 4);
    assert_eq!(buf.get_bits(4), Ok(0xF));
}

#[test]
fn cursors_over_the_same_bytes_are_independent() {
    let bytes = [0x12u8, 0x34];
    let mut first = Buffer::new(&bytes);
    let mut second = first;
    assert_eq!(first.get_bits(16), Ok(0x1234));
    assert_eq!(second.get_bits(8), Ok(0x12));
    assert!(first.is_exhausted());
    assert!(!second.is_exhausted());
}
