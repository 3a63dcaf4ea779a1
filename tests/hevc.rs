use heifers::bit::BitReader;
use heifers::hevc::nal::un_nal;
use heifers::hevc::nal_unit_header;
use heifers::hevc::pps;
use heifers::hevc::rbsp_trailing_bits;
use heifers::hevc::read_svlc;
use heifers::hevc::read_uvlc;
use heifers::hevc::sps;
use heifers::hevc::ss;
use heifers::hevc::vps;
use heifers::mpeg::ByteReader;
use heifers::Error;

#[test]
fn vps() {
    let bytes = [
        12, 1, 255, 255, 4, 8, 0, 0, 3, 0, 159, 168, 0, 0, 3, 0, 0, 60, 186, 2, 64,
    ];

    let mut reader = BitReader::new(&bytes);

    vps::video_parameter_set(&mut reader).unwrap();
}

#[test]
fn vps_ends_byte_aligned() {
    let bytes = [
        12, 1, 255, 255, 4, 8, 0, 0, 3, 0, 159, 168, 0, 0, 3, 0, 0, 60, 186, 2, 64,
    ];
    let mut reader = BitReader::new(&bytes);
    assert_eq!(Ok(vps::VPS_TEMPORAL_ID_NESTING), vps::video_parameter_set(&mut reader));
    assert_eq!(bytes.len() as u64 * 8, reader.position());
    let mut zeros = BitReader::new(&[0u8; 18]);
    assert!(vps::video_parameter_set(&mut zeros).is_err());
}

#[test]
fn sps() {
    let bytes = [
        1, 4, 8, 0, 0, 3, 0, 159, 168, 0, 0, 3, 0, 0, 60, 160, 11, 72, 12, 31, 89, 110, 164, 146,
        138, 224, 16, 0, 0, 3, 0, 16, 0, 0, 3, 0, 16, 128,
    ];
    let un_nalled = un_nal(&bytes);
    println!("{:?}", un_nalled);
    let mut reader = BitReader::new(&un_nalled);

    sps::seq_parameter_set(&mut reader).unwrap();
}

#[test]
fn pps() {
    let bytes = [193, 114, 176, 98, 64];

    let mut reader = BitReader::new(&bytes);

    pps::picture_parameter_set(&mut reader).unwrap();
    assert_eq!(bytes.len() as u64 * 8, reader.position());
}

#[test]
fn sps_ends_byte_aligned() {
    let bytes = [
        1, 4, 8, 0, 0, 3, 0, 159, 168, 0, 0, 3, 0, 0, 60, 160, 11, 72, 12, 31, 89, 110, 164, 146,
        138, 224, 16, 0, 0, 3, 0, 16, 0, 0, 3, 0, 16, 128,
    ];
    let un_nalled = un_nal(&bytes);
    let mut reader = BitReader::new(&un_nalled);
    let set = sps::seq_parameter_set(&mut reader).unwrap();
    assert_eq!(0, reader.position() % 8);
    assert_eq!(un_nalled.len() as u64 * 8, reader.position());
    assert!(set.log2_max_pic_order_cnt_lsb_minus4 <= 12);
    assert!(set.contains(sps::SPS_TEMPORAL_ID_NESTING));
}

#[test]
fn sps_of_nothing_is_eof() {
    let mut reader = BitReader::new(&[]);
    assert_eq!(Some(Error::Eof), sps::seq_parameter_set(&mut reader).err());
}

#[test]
fn vps_too_short_is_eof() {
    let mut reader = BitReader::new(&[12, 1, 255]);
    assert_eq!(Some(Error::Eof), vps::video_parameter_set(&mut reader).err());
}

#[test]
fn pps_flags_and_ids() {
    let bytes = [193, 114, 176, 98, 64];
    let mut reader = BitReader::new(&bytes);
    let set = pps::picture_parameter_set(&mut reader).unwrap();
    assert_eq!(0, set.pps_pic_parameter_set_id);
    assert_eq!(0, set.pps_seq_parameter_set_id);
    assert_eq!(0, set.num_extra_slice_header_bits);
}

/// Bits given as a string of '0' and '1', padded with zeros to whole bytes.
fn bits(s: &str) -> Vec<u8> {
    let mut out = vec![0u8; (s.len() + 7) / 8];
    for (i, c) in s.chars().enumerate() {
        if c == '1' {
            out[i / 8] |= 0x80 >> (i % 8);
        }
    }
    out
}

#[test]
fn exp_golomb_values() {
    let cases = [("1", 0u64), ("010", 1), ("011", 2), ("00100", 3), ("00111", 6)];
    for (code, value) in cases {
        let data = bits(code);
        let mut r = BitReader::new(&data);
        assert_eq!(Ok(value), read_uvlc(&mut r));
        assert_eq!(code.len() as u64, r.position());
    }
}

#[test]
fn exp_golomb_sequence() {
    let code = ["1", "010", "011", "00100", "00111", "0001000"].concat();
    let data = bits(&code);
    let mut r = BitReader::new(&data);
    for value in [0u64, 1, 2, 3, 6, 7] {
        assert_eq!(Ok(value), read_uvlc(&mut r));
    }
}

#[test]
fn exp_golomb_too_many_zeros() {
    let data = vec![0u8; 9];
    let mut r = BitReader::new(&data);
    assert_eq!(Err(Error::Range), read_uvlc(&mut r));
}

#[test]
fn exp_golomb_truncated() {
    let mut r = BitReader::new(&[0x01]);
    assert_eq!(Err(Error::Eof), read_uvlc(&mut r));
    let mut r = BitReader::new(&[]);
    assert_eq!(Err(Error::Eof), read_uvlc(&mut r));
}

#[test]
fn exp_golomb_widest() {
    let mut data = vec![0u8; 8];
    data[7] = 1;
    data.extend_from_slice(&[0xff; 8]);
    data[15] = 0xfe;
    let mut r = BitReader::new(&data);
    assert_eq!(Ok(u64::MAX - 1), read_uvlc(&mut r));
}

#[test]
fn signed_exp_golomb_values() {
    let cases = [("1", 0i64), ("010", 1), ("011", -1), ("00100", 2), ("00101", -2)];
    for (code, value) in cases {
        let data = bits(code);
        let mut r = BitReader::new(&data);
        assert_eq!(Ok(value), read_svlc(&mut r));
    }
}

#[test]
fn trailing_bits() {
    let mut r = BitReader::new(&[0b1000_0000]);
    assert_eq!(Ok(()), rbsp_trailing_bits(&mut r));
    assert_eq!(8, r.position());

    let mut r = BitReader::new(&[0b0000_0000]);
    assert_eq!(Err(Error::Structure), rbsp_trailing_bits(&mut r));

    let mut r = BitReader::new(&[0b1010_0000]);
    assert_eq!(Err(Error::Structure), rbsp_trailing_bits(&mut r));

    let mut r = BitReader::new(&[0b1111_1100]);
    assert_eq!(Ok(0b11111), r.read_u8(5));
    assert_eq!(Ok(()), rbsp_trailing_bits(&mut r));
    assert_eq!(8, r.position());
}

#[test]
fn nal_unit_header_fields() {
    let data = [0x42u8, 0x01];
    let mut c = ByteReader::new(&data);
    let h = nal_unit_header(&mut c).unwrap();
    assert_eq!(33, h.unit_type);
    assert_eq!(0, h.nuh_layer_id);
    assert_eq!(1, h.nuh_temporal_id_plus_1);
}

#[test]
fn nal_unit_header_forbidden_bit() {
    let data = [0xc2u8, 0x01];
    let mut c = ByteReader::new(&data);
    assert_eq!(Err(Error::Structure), nal_unit_header(&mut c));
}

#[test]
fn slice_header_rejects_slice_type_three() {
    let mut pps_reader = BitReader::new(&[193, 114, 176, 98, 64]);
    let pps = pps::picture_parameter_set(&mut pps_reader).unwrap();
    let sps_bytes = un_nal(&[
        1, 4, 8, 0, 0, 3, 0, 159, 168, 0, 0, 3, 0, 0, 60, 160, 11, 72, 12, 31, 89, 110, 164, 146,
        138, 224, 16, 0, 0, 3, 0, 16, 0, 0, 3, 0, 16, 128,
    ]);
    let sps = sps::seq_parameter_set(&mut BitReader::new(&sps_bytes)).unwrap();
    // first slice, no output of prior pictures unset, pps id 0, slice type 3
    let header = bits(&["1", "0", "1", "00100"].concat());
    let mut r = BitReader::new(&header);
    assert_eq!(
        Some(Error::Range),
        ss::slice_segment_header(19, &mut r, &pps, &sps).err()
    );
}

#[test]
fn sps_long_term_pictures_are_fixed_width() {
    let code = [
        "00000001",
        &"0".repeat(96),
        "1", "010", "1", "1", "0", "1", "1", "1", "0", "1", "1", "1",
        "111111", "0", "0", "0", "0",
        "1",
        "1", "010", "1010", "1",
        "0", "0", "0", "0",
        "1",
    ]
    .concat();
    let data = bits(&code);
    let mut r = BitReader::new(&data);
    let set = sps::seq_parameter_set(&mut r).unwrap();
    assert_eq!(1, set.num_long_term_ref_pics_sps);
    assert!(set.contains(sps::LONG_TERM_REF_PICS_PRESENT));
    assert!(set.contains(sps::USED_BY_CURR_PIC_LT_SPS));
    assert_eq!(data.len() as u64 * 8, r.position());
}

#[test]
fn bit_reader_width_out_of_range() {
    let mut r = BitReader::new(&[0xff; 16]);
    assert_eq!(Err(Error::Range), r.read_u8(9));
    assert_eq!(Err(Error::Range), r.read_bits(65));
    assert_eq!(0, r.position());
}
