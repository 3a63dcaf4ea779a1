use heifers::bit::BitReader;
use heifers::bit::Bits;
use heifers::mpeg::ByteReader;
use heifers::Error;

#[test]
fn one_byte() {
    let data = [0b1100_0100u8];
    let mut c = ByteReader::new(&data);
    let mut bits = Bits::read_exact(&mut c, 1).expect("reading from cursor");
    assert!(bits.read_bool());
    assert!(bits.read_bool());
    assert!(!bits.read_bool());
    assert!(!bits.read_bool());
    assert!(!bits.read_bool());
    assert!(bits.read_bool());
    assert!(!bits.read_bool());
    assert!(!bits.read_bool());
}

#[test]
fn sub_byte() {
    let data = [0b1100_0100u8];
    let mut c = ByteReader::new(&data);
    let mut bits = Bits::read_exact(&mut c, 1).expect("reading from cursor");
    assert_eq!(0b1100, bits.read_u8(4));
    assert_eq!(0b01, bits.read_u8(2));
    assert_eq!(0b0, bits.read_u8(2));
}

#[test]
fn multiple_bytes() {
    let data = b"abc";
    let mut c = ByteReader::new(data);
    let mut bits = Bits::read_exact(&mut c, 3).expect("reading from cursor");

    assert_eq!(b'a', bits.read_u8(8));
    assert_eq!(b'b', bits.read_u8(8));
    assert_eq!(b'c', bits.read_u8(8));
}

#[test]
fn multiple_word() {
    let buf = 987654321u32.to_be_bytes().to_vec();
    let mut c = ByteReader::new(&buf);
    let mut bits = Bits::read_exact(&mut c, 4).expect("reading from cursor");
    assert_eq!(987654321, bits.read_u32(32));
}

#[test]
fn bits_done_after_whole_block() {
    let data = [0xffu8, 0x00];
    let mut c = ByteReader::new(&data);
    let mut bits = Bits::read_exact(&mut c, 2).unwrap();
    assert!(!bits.done());
    assert_eq!(0xff, bits.read_u16(8));
    bits.skip(4);
    assert_eq!(0, bits.read_u8(4));
    assert!(bits.done());
}

#[test]
fn bits_read_exact_past_end_is_eof() {
    let data = [1u8, 2];
    let mut c = ByteReader::new(&data);
    assert_eq!(Some(Error::Eof), Bits::read_exact(&mut c, 3).err());
}

#[test]
fn bit_reader_one_byte() {
    let mut r = BitReader::new(&[0b1100_0100u8]);
    let expected = [true, true, false, false, false, true, false, false];
    for e in expected {
        assert_eq!(Ok(e), r.read_bool());
    }
    assert_eq!(Err(Error::Eof), r.read_bool());
    assert_eq!(8, r.position());
}

#[test]
fn bit_reader_sub_byte() {
    let mut r = BitReader::new(&[0b1100_0100u8]);
    assert_eq!(Ok(0b1100), r.read_u8(4));
    assert_eq!(Ok(0b01), r.read_u8(2));
    assert_eq!(Ok(0b00), r.read_u8(2));
    assert!(r.is_byte_aligned());
}

#[test]
fn bit_reader_wide_reads() {
    let mut r = BitReader::new(&[0x12, 0x34, 0x56, 0x78, 0x9a, 0xbc, 0xde, 0xf0, 0x11]);
    assert_eq!(Ok(0x1), r.read_u16(4));
    assert!(!r.is_byte_aligned());
    assert_eq!(Ok(0x2345_6789), r.read_u32(32));
    assert_eq!(Ok(0xabc_def0_11), r.read_u64(36));
    assert_eq!(Err(Error::Eof), r.read_bits(1));
}

#[test]
fn bit_reader_read_past_end_leaves_position() {
    let mut r = BitReader::new(&[0xff]);
    assert_eq!(Ok(0x3f), r.read_u8(6));
    assert_eq!(Err(Error::Eof), r.read_u8(3));
    assert_eq!(6, r.position());
    assert_eq!(Ok(3), r.read_u8(2));
}
