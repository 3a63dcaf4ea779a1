use heifers::mpeg::iprp::decode_association_u16;
use heifers::mpeg::iprp::decode_association_u8;
use heifers::mpeg::iprp::parse_hvcc;
use heifers::mpeg::iprp::parse_ipco;
use heifers::mpeg::iprp::parse_ipma;
use heifers::mpeg::iprp::Property;
use heifers::mpeg::meta::parse_hdlr;
use heifers::mpeg::meta::parse_iinf;
use heifers::mpeg::meta::parse_iloc;
use heifers::mpeg::meta::parse_pitm;
use heifers::mpeg::meta::read_top_level_box;
use heifers::mpeg::parse_ftyp;
use heifers::mpeg::read_full_box_header;
use heifers::mpeg::read_header;
use heifers::mpeg::read_u4_pair;
use heifers::mpeg::read_value_of_size;
use heifers::mpeg::skip_box;
use heifers::mpeg::ByteReader;
use heifers::mpeg::FourCc;
use heifers::mpeg::HEIC;
use heifers::Error;

fn bx(t: &[u8; 4], payload: &[u8]) -> Vec<u8> {
    let mut out = ((8 + payload.len()) as u32).to_be_bytes().to_vec();
    out.extend_from_slice(t);
    out.extend_from_slice(payload);
    out
}

#[test]
fn packing_fourcc() {
    for key in &[
        "ftyp", "hdlr", "heic", "hvc1", "hvcC", "iinf", "iloc", "infe", "ipco", "ipma", "iprp",
        "ipse", "meta", "mdat", "moov", "pitm",
    ] {
        println!(
            "pub const {}: FourCc = FourCc(0x{:08x}); // {}",
            key.to_ascii_uppercase(),
            FourCc::from_ascii(key.as_bytes()).0,
            key
        );
    }
}

#[test]
fn fourcc_packs_big_endian() {
    assert_eq!(0x666F7572, FourCc::from_ascii(&[0x66, 0x6F, 0x75, 0x72]).0);
    assert_eq!(HEIC, FourCc::from_ascii(b"heic").0);
    assert_eq!([0x66, 0x6F, 0x75, 0x72], FourCc(0x666F7572).to_bytes());
}

#[test]
fn fourcc_debug_repr() {
    assert_eq!("\"four\"", FourCc::from_ascii(b"four").debug_repr());
    assert_eq!("\"a\\\"b\\\\\"", FourCc::from_ascii(b"a\"b\\").debug_repr());
    assert_eq!("\"\\0bc\u{fffd}\"", FourCc::from_ascii(&[0, b'b', b'c', 0xff]).debug_repr());
    assert_eq!("\"é\\u{1}\\0\"", FourCc::from_ascii(&[0xc3, 0xa9, 0x01, 0x00]).debug_repr());
}

#[test]
fn header_plain_size() {
    let data = bx(b"free", &[1, 2, 3]);
    let mut r = ByteReader::new(&data);
    let h = read_header(&mut r).unwrap();
    assert_eq!(FourCc::from_ascii(b"free"), h.box_type);
    assert_eq!(11, h.size);
    assert_eq!(8, h.offset);
    assert_eq!(3, h.data_size());
    assert_eq!(8, r.position());
}

#[test]
fn header_large_size() {
    let mut data = 1u32.to_be_bytes().to_vec();
    data.extend_from_slice(b"mdat");
    data.extend_from_slice(&20u64.to_be_bytes());
    data.extend_from_slice(&[0; 4]);
    let mut r = ByteReader::new(&data);
    let h = read_header(&mut r).unwrap();
    assert_eq!(20, h.size);
    assert_eq!(16, h.offset);
    assert_eq!(4, h.data_size());
}

#[test]
fn header_large_size_too_small() {
    let mut data = 1u32.to_be_bytes().to_vec();
    data.extend_from_slice(b"mdat");
    data.extend_from_slice(&15u64.to_be_bytes());
    let mut r = ByteReader::new(&data);
    assert_eq!(Err(Error::Structure), read_header(&mut r));
}

#[test]
fn header_unsupported_sizes() {
    for size in [0u32, 2, 7] {
        let mut data = size.to_be_bytes().to_vec();
        data.extend_from_slice(b"free");
        let mut r = ByteReader::new(&data);
        assert_eq!(Err(Error::Structure), read_header(&mut r));
    }
    let mut r = ByteReader::new(&[0, 0, 0, 8, b'f']);
    assert_eq!(Err(Error::Eof), read_header(&mut r));
}

#[test]
fn top_level_box_moves_by_its_size() {
    let mut data = bx(b"free", &[9; 5]);
    data.extend(bx(b"skip", &[]));
    let mut r = ByteReader::new(&data);
    let (h, _) = read_top_level_box(&mut r).unwrap();
    assert_eq!(13, h.size);
    assert_eq!(13, r.position());
    let (h, _) = read_top_level_box(&mut r).unwrap();
    assert_eq!(8, h.size);
    assert_eq!(21, r.position());
}

#[test]
fn skip_box_passes_data() {
    let data = bx(b"free", &[9; 5]);
    let mut r = ByteReader::new(&data);
    let h = read_header(&mut r).unwrap();
    assert_eq!(Ok(()), skip_box(&mut r, &h));
    assert_eq!(13, r.position());
}

#[test]
fn full_box_header_split() {
    let data = [0x02, 0x12, 0x34, 0x56];
    let mut r = ByteReader::new(&data);
    let h = read_full_box_header(&mut r).unwrap();
    assert_eq!(2, h.version);
    assert_eq!(0x123456, h.flags);
}

#[test]
fn u4_pair_and_sized_values() {
    let data = [0x48, 0, 0, 0, 5, 0, 0, 0, 0, 0, 0, 1, 0];
    let mut r = ByteReader::new(&data);
    assert_eq!(Ok((4, 8)), read_u4_pair(&mut r));
    assert_eq!(Ok(5), read_value_of_size(&mut r, 4));
    assert_eq!(Ok(0x100), read_value_of_size(&mut r, 8));
    assert_eq!(Ok(0), read_value_of_size(&mut r, 0));
    assert_eq!(Err(Error::Unsupported), read_value_of_size(&mut r, 2));
}

#[test]
fn ftyp_brands() {
    let mut data = b"mif1".to_vec();
    data.extend_from_slice(&0u32.to_be_bytes());
    data.extend_from_slice(b"mif1heic");
    let mut r = ByteReader::new(&data);
    let f = parse_ftyp(&mut r).unwrap();
    assert_eq!(FourCc::from_ascii(b"mif1"), f.major_brand);
    assert_eq!(2, f.brands.len());
    assert!(f.is_heif());

    let mut r = ByteReader::new(b"avifxxxxmif1");
    assert!(!parse_ftyp(&mut r).unwrap().is_heif());
}

#[test]
fn ftyp_ragged_brand_list() {
    let mut r = ByteReader::new(b"heic\0\0\0\0mif");
    assert_eq!(Some(Error::Structure), parse_ftyp(&mut r).err());
}

#[test]
fn hdlr_and_pitm() {
    let mut data = vec![0u8; 8];
    data.extend_from_slice(b"pict");
    data.extend_from_slice(&[0; 13]);
    let mut r = ByteReader::new(&data);
    assert_eq!(Ok(FourCc::from_ascii(b"pict")), parse_hdlr(&mut r));
    assert_eq!(data.len(), r.position());

    let mut r = ByteReader::new(&data[..15]);
    assert_eq!(Err(Error::Structure), parse_hdlr(&mut r));
    let mut r = ByteReader::new(&data[..16]);
    assert_eq!(Ok(FourCc::from_ascii(b"pict")), parse_hdlr(&mut r));

    let mut r = ByteReader::new(&[0, 0, 0, 0, 0, 7]);
    assert_eq!(Ok(7), parse_pitm(&mut r));
    let mut r = ByteReader::new(&[1, 0, 0, 0, 0, 7]);
    assert_eq!(Err(Error::Version), parse_pitm(&mut r));
}

#[test]
fn iloc_version_zero_has_no_index() {
    let mut data = vec![0, 0, 0, 0, 0x44, 0x40];
    data.extend_from_slice(&1u16.to_be_bytes());
    data.extend_from_slice(&7u16.to_be_bytes());
    data.extend_from_slice(&0u16.to_be_bytes());
    data.extend_from_slice(&50u32.to_be_bytes());
    data.extend_from_slice(&2u16.to_be_bytes());
    for (offset, length) in [(1u32, 2u32), (3, 4)] {
        data.extend_from_slice(&offset.to_be_bytes());
        data.extend_from_slice(&length.to_be_bytes());
    }
    let mut r = ByteReader::new(&data);
    let items = parse_iloc(&mut r).unwrap();
    assert_eq!(data.len(), r.position());
    assert_eq!(1, items.len());
    assert_eq!(7, items[0].id);
    assert_eq!(50, items[0].base_offset);
    assert_eq!(2, items[0].extents.len());
    assert_eq!(0, items[0].extents[1].index);
    assert_eq!(3, items[0].extents[1].offset);
    assert_eq!(4, items[0].extents[1].length);
}

#[test]
fn iloc_bad_version_and_width() {
    let mut r = ByteReader::new(&[3, 0, 0, 0, 0x44, 0x40, 0, 0]);
    assert_eq!(Some(Error::Version), parse_iloc(&mut r).err());
    let mut r = ByteReader::new(&[0, 0, 0, 0, 0x24, 0x40, 0, 1, 0, 1, 0, 0, 0, 0, 0, 0, 0, 1, 0, 0]);
    assert_eq!(Some(Error::Unsupported), parse_iloc(&mut r).err());
}

#[test]
fn ipma_wide_indices() {
    let mut data = vec![0, 0, 0, 1];
    data.extend_from_slice(&1u32.to_be_bytes());
    data.extend_from_slice(&1u16.to_be_bytes());
    data.push(2);
    data.extend_from_slice(&0x8005u16.to_be_bytes());
    data.extend_from_slice(&0x7fffu16.to_be_bytes());
    let mut r = ByteReader::new(&data);
    let entries = parse_ipma(&mut r).unwrap();
    assert_eq!(1, entries[0].item_id);
    assert!(entries[0].associations[0].essential);
    assert_eq!(5, entries[0].associations[0].property_index);
    assert!(!entries[0].associations[1].essential);
    assert_eq!(0x7fff, entries[0].associations[1].property_index);
}

#[test]
fn ipma_narrow_indices() {
    let mut data = vec![1, 0, 0, 0];
    data.extend_from_slice(&1u32.to_be_bytes());
    data.extend_from_slice(&9u32.to_be_bytes());
    data.push(2);
    data.extend_from_slice(&[0x81, 0x02]);
    let mut r = ByteReader::new(&data);
    let entries = parse_ipma(&mut r).unwrap();
    assert_eq!(9, entries[0].item_id);
    assert!(entries[0].associations[0].essential);
    assert_eq!(1, entries[0].associations[0].property_index);
    assert!(!entries[0].associations[1].essential);
    assert_eq!(2, entries[0].associations[1].property_index);
}

#[test]
fn association_fields() {
    let a = decode_association_u16(0x8000 | 300);
    assert!(a.essential);
    assert_eq!(300, a.property_index);
    let a = decode_association_u8(0x7f);
    assert!(!a.essential);
    assert_eq!(0x7f, a.property_index);
}

fn hvcc_payload(array_type: u8) -> Vec<u8> {
    let mut data = vec![1, 0x01, 0x60, 0, 0, 0, 0x90, 0, 0, 0, 0, 0, 90];
    data.extend_from_slice(&[0xf0, 0x00, 0xfc, 0xfd, 0xf8, 0xf8, 0x00, 0x00, 0x0f]);
    data.push(1);
    data.push(array_type);
    data.extend_from_slice(&1u16.to_be_bytes());
    data.extend_from_slice(&3u16.to_be_bytes());
    data.extend_from_slice(&[0x42, 0x01, 0x01]);
    data
}

#[test]
fn hvcc_header_and_arrays() {
    let data = hvcc_payload(0xa1);
    let mut r = ByteReader::new(&data);
    let h = parse_hvcc(&mut r).unwrap();
    assert_eq!(data.len(), r.position());
    assert_eq!(1, h.header.configuration_version);
    assert_eq!(0, h.header.general_profile_space);
    assert!(!h.header.general_tier_flag);
    assert_eq!(1, h.header.general_profile_idc);
    assert_eq!(0x6000_0000, h.header.general_profile_compatibility_flags);
    assert_eq!(0x9000_0000_0000, h.header.general_constraint_indicator_flags);
    assert_eq!(90, h.header.general_level_idc);
    assert_eq!(0, h.header.min_spatial_segmentation_idc);
    assert_eq!(0, h.header.parallelism_type);
    assert_eq!(1, h.header.chroma_format);
    assert_eq!(0, h.header.bit_depth_luma_minus8);
    assert_eq!(0, h.header.bit_depth_chroma_minus8);
    assert_eq!(0, h.header.avg_frame_rate);
    assert_eq!(0, h.header.constant_frame_rate);
    assert_eq!(1, h.header.num_temporal_layers);
    assert!(h.header.temporal_id_nested);
    assert_eq!(3, h.header.length_size_minus_one);
    assert_eq!(1, h.nals.len());
    assert_eq!(0xa1, h.nals[0].completeness_and_nal_unit_type);
    assert_eq!(33, h.nals[0].nal_unit_type());
    assert_eq!(vec![vec![0x42u8, 0x01, 0x01]], h.nals[0].units);
}

#[test]
fn hvcc_reserved_bit_masked() {
    let data = hvcc_payload(0xff);
    let mut r = ByteReader::new(&data);
    let h = parse_hvcc(&mut r).unwrap();
    assert_eq!(0xbf, h.nals[0].completeness_and_nal_unit_type);
    assert_eq!(63, h.nals[0].nal_unit_type());
}

#[test]
fn hvcc_too_short() {
    let mut r = ByteReader::new(&[1, 2, 3]);
    assert!(matches!(parse_hvcc(&mut r), Err(Error::Eof)));
}

#[test]
fn ipco_keeps_unknown_properties() {
    let mut data = bx(b"ispe", &[0, 0, 0, 0, 0, 0, 1, 0, 0, 0, 0, 200]);
    data.extend(bx(b"colr", &[1, 2, 3]));
    let mut r = ByteReader::new(&data);
    let props = parse_ipco(&mut r).unwrap();
    assert_eq!(2, props.len());
    assert!(matches!(props[0], Property::Size(256, 200)));
    assert!(matches!(props[1], Property::Unknown(t) if t == FourCc::from_ascii(b"colr")));
}

#[test]
fn ipco_child_not_consumed() {
    let data = bx(b"ispe", &[0, 0, 0, 0, 0, 0, 1, 0, 0, 0, 0, 200, 7]);
    let mut r = ByteReader::new(&data);
    assert!(matches!(parse_ipco(&mut r), Err(Error::Structure)));
}

#[test]
fn iinf_entries() {
    let mut infe = vec![2, 0, 0, 0];
    infe.extend_from_slice(&1u16.to_be_bytes());
    infe.extend_from_slice(&0u16.to_be_bytes());
    infe.extend_from_slice(b"hvc1");
    infe.extend_from_slice(b"pic\0");
    let mut data = vec![0, 0, 0, 0, 0, 1];
    data.extend(bx(b"infe", &infe));
    let mut r = ByteReader::new(&data);
    let infos = parse_iinf(&mut r).unwrap();
    assert_eq!(1, infos.len());
    assert_eq!(1, infos[0].id);
    assert_eq!(FourCc::from_ascii(b"hvc1"), infos[0].item_type);
    assert_eq!("pic", infos[0].item_name);

    let mut wrong = vec![0, 0, 0, 0, 0, 1];
    wrong.extend(bx(b"free", &infe));
    let mut r = ByteReader::new(&wrong);
    assert!(matches!(parse_iinf(&mut r), Err(Error::Structure)));

    let mut old = vec![0, 0, 0, 0, 0, 1];
    let mut infe1 = infe.clone();
    infe1[0] = 1;
    old.extend(bx(b"infe", &infe1));
    let mut r = ByteReader::new(&old);
    assert!(matches!(parse_iinf(&mut r), Err(Error::Version)));
}
