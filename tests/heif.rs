use heifers::associated_items;
use heifers::mpeg::iprp::Association;
use heifers::mpeg::iprp::ItemPropertyAssociation;
use heifers::mpeg::iprp::Property;
use heifers::mpeg::FourCc;
use heifers::resolve_properties;
use heifers::Error;
use heifers::Heif;

fn bx(t: &[u8; 4], payload: &[u8]) -> Vec<u8> {
    let mut out = ((8 + payload.len()) as u32).to_be_bytes().to_vec();
    out.extend_from_slice(t);
    out.extend_from_slice(payload);
    out
}

fn full(version: u8, flags: u32, rest: &[u8]) -> Vec<u8> {
    let mut out = vec![version];
    out.extend_from_slice(&flags.to_be_bytes()[1..]);
    out.extend_from_slice(rest);
    out
}

struct Layout {
    second_index: u32,
    ipma_index: u8,
    with_locator: bool,
    primary: u16,
    with_hvcc: bool,
    iloc_boxes: usize,
}

const GOOD: Layout = Layout {
    second_index: 1,
    ipma_index: 2,
    with_locator: true,
    primary: 1,
    with_hvcc: false,
    iloc_boxes: 1,
};

const SPS_BYTES: [u8; 38] = [
    1, 4, 8, 0, 0, 3, 0, 159, 168, 0, 0, 3, 0, 0, 60, 160, 11, 72, 12, 31, 89, 110, 164, 146, 138,
    224, 16, 0, 0, 3, 0, 16, 0, 0, 3, 0, 16, 128,
];

const PPS_BYTES: [u8; 5] = [193, 114, 176, 98, 64];

/// An `hvcC` record with one SPS and one PPS unit.
fn hvcc() -> Vec<u8> {
    let mut data = vec![1, 0x01, 0x60, 0, 0, 0, 0x90, 0, 0, 0, 0, 0, 90];
    data.extend_from_slice(&[0xf0, 0x00, 0xfc, 0xfd, 0xf8, 0xf8, 0x00, 0x00, 0x0f]);
    data.push(2);
    for (array_type, header, body) in [(0xa1u8, [0x42u8, 0x01], &SPS_BYTES[..]), (0xa2, [0x44, 0x01], &PPS_BYTES[..])] {
        data.push(array_type);
        data.extend_from_slice(&1u16.to_be_bytes());
        data.extend_from_slice(&((body.len() + 2) as u16).to_be_bytes());
        data.extend_from_slice(&header);
        data.extend_from_slice(body);
    }
    bx(b"hvcC", &data)
}

/// A small HEIF file: one item whose bytes lie in two extents of an `mdat`
/// box whose data starts at offset 100.
fn file(layout: &Layout) -> Vec<u8> {
    let mut out = bx(b"ftyp", &[b"mif1".as_slice(), &[0, 0, 0, 0], b"mif1heic"].concat());
    out.extend(bx(b"free", &vec![0u8; 100 - 24 - 8 - 8]));
    assert_eq!(92, out.len());
    let mut mdat = b"ABC".to_vec();
    mdat.extend_from_slice(&[0; 7]);
    mdat.extend_from_slice(b"DE");
    out.extend(bx(b"mdat", &mdat));

    let hdlr = bx(b"hdlr", &full(0, 0, &[&[0u8; 4][..], b"pict", &[0; 13]].concat()));
    let pitm = bx(b"pitm", &full(0, 0, &layout.primary.to_be_bytes()));
    let mut iloc_body = vec![0x44, 0x44];
    iloc_body.extend_from_slice(&1u16.to_be_bytes());
    if layout.with_locator {
        iloc_body.extend_from_slice(&1u16.to_be_bytes());
    } else {
        iloc_body.extend_from_slice(&2u16.to_be_bytes());
    }
    iloc_body.extend_from_slice(&[0, 0]);
    iloc_body.extend_from_slice(&0u16.to_be_bytes());
    iloc_body.extend_from_slice(&100u32.to_be_bytes());
    iloc_body.extend_from_slice(&2u16.to_be_bytes());
    for (index, offset, length) in [(0u32, 0u32, 3u32), (layout.second_index, 10, 2)] {
        iloc_body.extend_from_slice(&index.to_be_bytes());
        iloc_body.extend_from_slice(&offset.to_be_bytes());
        iloc_body.extend_from_slice(&length.to_be_bytes());
    }
    let iloc = bx(b"iloc", &full(1, 0, &iloc_body));
    let infe = bx(
        b"infe",
        &full(2, 0, &[&1u16.to_be_bytes()[..], &[0, 0], b"hvc1", b"img\0"].concat()),
    );
    let iinf = bx(b"iinf", &full(0, 0, &[&1u16.to_be_bytes()[..], &infe].concat()));
    let ispe = bx(b"ispe", &full(0, 0, &[&64u32.to_be_bytes()[..], &48u32.to_be_bytes()].concat()));
    let second = if layout.with_hvcc { hvcc() } else { bx(b"colr", b"nclx") };
    let ipco = bx(b"ipco", &[ispe, second].concat());
    let ipma = bx(
        b"ipma",
        &full(
            0,
            0,
            &[&1u32.to_be_bytes()[..], &1u16.to_be_bytes(), &[2, 0x81, layout.ipma_index]].concat(),
        ),
    );
    let iprp = bx(b"iprp", &[ipco, ipma].concat());
    let ilocs = vec![iloc; layout.iloc_boxes].concat();
    let meta = bx(b"meta", &full(0, 0, &[hdlr, pitm, ilocs, iinf, iprp].concat()));
    out.extend(meta);
    out
}

fn read_all(heif: &Heif, data: &[u8], chunk: usize) -> Vec<u8> {
    let mut reader = heif.open_item_data(data, heif.primary_item_id()).unwrap();
    let mut out = Vec::new();
    let mut buf = vec![0u8; chunk];
    loop {
        let n = reader.read(&mut buf);
        if n == 0 {
            break;
        }
        out.extend_from_slice(&buf[..n]);
    }
    out
}

#[test]
fn extents_reader_concatenates() {
    let data = file(&GOOD);
    let heif = Heif::new(&data).unwrap();
    assert_eq!(1, heif.primary_item_id());
    assert_eq!(FourCc::from_ascii(b"pict"), heif.handler());
    assert_eq!(b"ABCDE".to_vec(), read_all(&heif, &data, 5));
    assert_eq!(b"ABCDE".to_vec(), read_all(&heif, &data, 1));
    assert_eq!(b"ABCDE".to_vec(), read_all(&heif, &data, 100));
}

#[test]
fn extents_reader_stops_at_extent_end() {
    let data = file(&GOOD);
    let heif = Heif::new(&data).unwrap();
    let mut reader = heif.open_item_data(&data, 1).unwrap();
    let mut buf = [0u8; 5];
    assert_eq!(3, reader.read(&mut buf));
    assert_eq!(b"ABC", &buf[..3]);
    assert_eq!(2, reader.read(&mut buf));
    assert_eq!(b"DE", &buf[..2]);
    assert_eq!(0, reader.read(&mut buf));
    assert_eq!(0, reader.read(&mut []));
}

#[test]
fn open_unknown_item() {
    let data = file(&GOOD);
    let heif = Heif::new(&data).unwrap();
    assert!(matches!(heif.open_item_data(&data, 7), Err(Error::NotFound)));
}

#[test]
fn extent_index_out_of_sequence() {
    let data = file(&Layout { second_index: 5, ..GOOD });
    let heif = Heif::new(&data).unwrap();
    assert!(matches!(heif.open_item_data(&data, 1), Err(Error::Structure)));
}

#[test]
fn extent_past_end_of_data() {
    let data = file(&GOOD);
    let heif = Heif::new(&data).unwrap();
    assert!(matches!(heif.open_item_data(&data[..105], 1), Err(Error::Eof)));
}

#[test]
fn property_index_out_of_range() {
    let data = file(&Layout { ipma_index: 3, ..GOOD });
    assert!(matches!(Heif::new(&data), Err(Error::Structure)));
    let data = file(&Layout { ipma_index: 0, ..GOOD });
    assert!(matches!(Heif::new(&data), Err(Error::Structure)));
}

#[test]
fn item_without_locator() {
    let data = file(&Layout { with_locator: false, ..GOOD });
    assert!(matches!(Heif::new(&data), Err(Error::NotFound)));
}

#[test]
fn primary_item_missing() {
    let data = file(&Layout { primary: 4, ..GOOD });
    assert!(matches!(Heif::new(&data), Err(Error::NotFound)));
}

#[test]
fn not_heif() {
    let mut data = file(&GOOD);
    data[8..12].copy_from_slice(b"avif");
    data[16..24].copy_from_slice(b"avifmif1");
    assert!(matches!(Heif::new(&data), Err(Error::Unsupported)));
}

#[test]
fn no_parameter_sets() {
    let data = file(&GOOD);
    let heif = Heif::new(&data).unwrap();
    assert!(matches!(heif.find_sps(1), Err(Error::NotFound)));
    assert!(matches!(heif.find_pps(1), Err(Error::NotFound)));
}

fn assoc(item_id: u32, refs: &[(bool, u16)]) -> ItemPropertyAssociation {
    ItemPropertyAssociation {
        item_id,
        associations: refs
            .iter()
            .map(|&(essential, property_index)| Association { essential, property_index })
            .collect(),
    }
}

#[test]
fn property_association() {
    let container = vec![Property::Size(64, 48), Property::Unknown(FourCc::from_ascii(b"hvcC"))];
    let assocs = vec![assoc(1, &[(true, 1), (false, 2)])];
    let props = resolve_properties(container, &assocs).unwrap();
    assert_eq!(2, props.len());
    assert_eq!(vec![1u32], props[0].items);
    assert_eq!(vec![1u32], props[1].items);
    assert_eq!(vec![1u32], props[0].essential);
    assert!(props[1].essential.is_empty());
    assert!(matches!(props[0].property, Property::Size(64, 48)));
}

#[test]
fn property_association_many_items() {
    let container = vec![Property::Size(1, 1), Property::Size(2, 2), Property::Size(3, 3)];
    let assocs = vec![
        assoc(1, &[(true, 1)]),
        assoc(2, &[(false, 1), (false, 3)]),
        assoc(1, &[(false, 1)]),
    ];
    let props = resolve_properties(container, &assocs).unwrap();
    assert_eq!(vec![1u32, 2], props[0].items);
    assert!(props[1].items.is_empty());
    assert_eq!(vec![2u32], props[2].items);
    assert_eq!(vec![2u32], associated_items(&assocs, 3));
    assert_eq!(vec![1u32], props[0].essential);
    assert_eq!(vec![1u32], heifers::essential_items(&assocs, 1));
}

#[test]
fn property_association_bad_index() {
    let container = vec![Property::Size(1, 1)];
    let assocs = vec![assoc(1, &[(true, 2)])];
    assert!(matches!(resolve_properties(container, &assocs), Err(Error::Structure)));
}

#[test]
fn parameter_sets_of_primary_item() {
    let data = file(&Layout { with_hvcc: true, ..GOOD });
    let heif = Heif::new(&data).unwrap();
    let sps = heif.find_sps(1).unwrap();
    assert!(sps.log2_max_pic_order_cnt_lsb_minus4 <= 12);
    assert!(sps.contains(heifers::hevc::sps::SPS_TEMPORAL_ID_NESTING));
    let pps = heif.find_pps(1).unwrap();
    assert_eq!(0, pps.pps_pic_parameter_set_id);
    assert!(matches!(heif.find_pps(2), Err(Error::NotFound)));
}

#[test]
fn one_iloc_box_required() {
    let data = file(&Layout { iloc_boxes: 2, ..GOOD });
    assert!(matches!(Heif::new(&data), Err(Error::Structure)));
    let data = file(&Layout { iloc_boxes: 0, ..GOOD });
    assert!(matches!(Heif::new(&data), Err(Error::NotFound)));
}
