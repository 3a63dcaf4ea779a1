use vstd::prelude::*;

use crate::bit::bit_at;
use crate::bit::bits_value;
use crate::bit::Bits;
use crate::error::Error;
use crate::mpeg::be_at;
use crate::mpeg::header_spec;
use crate::mpeg::read_full_box_header;
use crate::mpeg::read_header;
use crate::mpeg::skip;
use crate::mpeg::ByteReader;
use crate::mpeg::FourCc;
use crate::mpeg::HVCC;
use crate::mpeg::IPCO;
use crate::mpeg::IPMA;
use crate::mpeg::ISPE;

verus! {

/// One entry of an `ipco` container.
#[derive(Debug, Clone)]
pub enum Property {
    HvcCodecSettings(Hvcc),
    Size(u32, u32),
    Unknown(FourCc),
}

/// The containers and association lists of one `iprp` box, in file order.
#[derive(Debug, Clone)]
pub struct RawProps {
    pub containers: Vec<Vec<Property>>,
    pub associations: Vec<Vec<ItemPropertyAssociation>>,
}

/// An `ipma` entry: the properties that one item refers to.
#[derive(Debug, Clone)]
pub struct ItemPropertyAssociation {
    pub item_id: u32,
    pub associations: Vec<Association>,
}

/// A reference from an item to a property, by its 1-based position in the
/// `ipco` container.
#[derive(Debug, Clone, Copy, PartialEq, Eq, Structural)]
pub struct Association {
    pub essential: bool,
    pub property_index: u16,
}

/// The association that a 16-bit field holds: the top bit says essential,
/// the low 15 bits are the index.
pub open spec fn association_of_u16(v: u16) -> Association {
    Association { essential: v >= 0x8000, property_index: (v % 0x8000) as u16 }
}

/// The association that an 8-bit field holds: the top bit says essential,
/// the low 7 bits are the index.
pub open spec fn association_of_u8(v: u8) -> Association {
    Association { essential: v >= 0x80, property_index: (v % 0x80) as u16 }
}

/// With 16-bit associations the essential flag is bit 15 and the property
/// index the low 15 bits; with 8-bit ones, bit 7 and the low 7 bits.
pub proof fn lemma_association_fields(wide: u16, narrow: u8)
    ensures
        association_of_u16(wide).essential == (wide & 0x8000 != 0),
        association_of_u16(wide).property_index == wide & 0x7fff,
        association_of_u8(narrow).essential == (narrow & 0x80 != 0),
        association_of_u8(narrow).property_index == (narrow & 0x7f) as u16,
{
    assert((wide & 0x8000u16 != 0) == (wide >= 0x8000)) by (bit_vector);
    assert(wide & 0x7fffu16 == wide % 0x8000) by (bit_vector);
    assert((narrow & 0x80u8 != 0) == (narrow >= 0x80)) by (bit_vector);
    assert(narrow & 0x7fu8 == narrow % 0x80) by (bit_vector);
}

/// Splits a 16-bit association field.
pub fn decode_association_u16(val: u16) -> (r: Association)
    ensures
        r == association_of_u16(val),
{
    let mask: u16 = 0b1000_0000_0000_0000;
    assert((val & 0x8000u16 != 0) == (val >= 0x8000)) by (bit_vector);
    assert(val & !0x8000u16 == val % 0x8000) by (bit_vector);
    Association { essential: 0 != (val & mask), property_index: val & (!mask) }
}

/// Splits an 8-bit association field.
pub fn decode_association_u8(val: u8) -> (r: Association)
    ensures
        r == association_of_u8(val),
{
    let mask: u8 = 0b1000_0000;
    assert((val & 0x80u8 != 0) == (val >= 0x80)) by (bit_vector);
    assert(val & !0x80u8 == val % 0x80) by (bit_vector);
    Association { essential: 0 != (val & mask), property_index: (val & (!mask)) as u16 }
}

/// The HEVC decoder configuration record (`hvcC`).
#[derive(Debug, Clone)]
pub struct Hvcc {
    pub header: HvccHeader,
    pub nals: Vec<Nal>,
}

/// The fixed 22-byte part of an `hvcC` record.
#[derive(Debug, Clone, Copy, PartialEq, Eq, Structural)]
pub struct HvccHeader {
    pub configuration_version: u8,
    pub general_profile_space: u8,
    pub general_tier_flag: bool,
    pub general_profile_idc: u8,
    pub general_profile_compatibility_flags: u32,
    pub general_constraint_indicator_flags: u64,
    pub general_level_idc: u8,
    pub min_spatial_segmentation_idc: u16,
    pub parallelism_type: u8,
    pub chroma_format: u8,
    pub bit_depth_luma_minus8: u8,
    pub bit_depth_chroma_minus8: u8,
    pub avg_frame_rate: u16,
    pub constant_frame_rate: u8,
    pub num_temporal_layers: u8,
    pub temporal_id_nested: bool,
    pub length_size_minus_one: u8,
}

/// The fields of the fixed part of an `hvcC` record in the bits of `d`,
/// skipping the reserved runs.
pub open spec fn hvcc_header_spec(d: Seq<u8>) -> HvccHeader {
    HvccHeader {
        configuration_version: bits_value(d, 0, 8) as u8,
        general_profile_space: bits_value(d, 8, 2) as u8,
        general_tier_flag: bit_at(d, 10),
        general_profile_idc: bits_value(d, 11, 5) as u8,
        general_profile_compatibility_flags: bits_value(d, 16, 32) as u32,
        general_constraint_indicator_flags: bits_value(d, 48, 48) as u64,
        general_level_idc: bits_value(d, 96, 8) as u8,
        min_spatial_segmentation_idc: bits_value(d, 108, 12) as u16,
        parallelism_type: bits_value(d, 126, 2) as u8,
        chroma_format: bits_value(d, 134, 2) as u8,
        bit_depth_luma_minus8: bits_value(d, 141, 3) as u8,
        bit_depth_chroma_minus8: bits_value(d, 149, 3) as u8,
        avg_frame_rate: bits_value(d, 152, 16) as u16,
        constant_frame_rate: bits_value(d, 168, 2) as u8,
        num_temporal_layers: bits_value(d, 170, 3) as u8,
        temporal_id_nested: bit_at(d, 173),
        length_size_minus_one: bits_value(d, 174, 2) as u8,
    }
}

/// One array of parameter-set NAL units in an `hvcC` record.
#[derive(Debug, Clone)]
pub struct Nal {
    /// The array's first byte with its reserved bit (0x40) cleared: the
    /// completeness flag in bit 7 and the NAL unit type in the low 6 bits.
    pub completeness_and_nal_unit_type: u8,
    pub units: Vec<Vec<u8>>,
}

impl Nal {
    /// The NAL unit type of the array's units.
    pub fn nal_unit_type(&self) -> (r: u8)
        ensures
            r == self.completeness_and_nal_unit_type % 64,
            r <= 63,
    {
        let v = self.completeness_and_nal_unit_type;
        assert(v & 0x3fu8 == v % 64) by (bit_vector);
        v & 0x3f
    }
}

/// Whether `prop` is what the child box `b` (type, data start, end) of an
/// `ipco` box holds: the size of an `ispe` box, the record of an `hvcC` box,
/// or the type of any other box.
pub open spec fn property_at(prop: Property, d: Seq<u8>, b: (u32, int, int)) -> bool {
    let (t, q, e) = b;
    if t == ISPE {
        prop == Property::Size(be_at(d, q + 4, 4) as u32, be_at(d, q + 8, 4) as u32)
    } else if t == HVCC {
        match prop {
            Property::HvcCodecSettings(h) => hvcc_spec(d, q, e) is Ok && h.header == hvcc_spec(
                d,
                q,
                e,
            )->Ok_0.0 && nals_view(h.nals@) == hvcc_spec(d, q, e)->Ok_0.1,
            _ => false,
        }
    } else {
        prop == Property::Unknown(FourCc(t))
    }
}

/// Whether the child of type `t` with data from `q` to `e` parses and ends
/// exactly at `e`: `ispe` and `hvcC` children are parsed, any other is passed
/// over. A parse that stops short fails with `Error::Structure`.
#[verifier::opaque]
pub open spec fn ipco_child_spec(d: Seq<u8>, t: u32, q: int, e: int) -> Result<(), Error> {
    if t == ISPE {
        match ispe_spec(d, q, e) {
            Err(err) => Err(err),
            Ok((_, q2)) => if q2 != e {
                Err(Error::Structure)
            } else {
                Ok(())
            },
        }
    } else if t == HVCC {
        match hvcc_spec(d, q, e) {
            Err(err) => Err(err),
            Ok((_, _, q2)) => if q2 != e {
                Err(Error::Structure)
            } else {
                Ok(())
            },
        }
    } else {
        Ok(())
    }
}

/// The child boxes (type, data start, end) of an `ipco` box whose data runs
/// from `p` to `end`, each parsed and consumed exactly; or the first error.
pub open spec fn ipco_spec(d: Seq<u8>, p: int, end: int) -> Result<Seq<(u32, int, int)>, Error>
    decreases end - p,
{
    if p >= end {
        Ok(Seq::empty())
    } else {
        match header_spec(d, p, end) {
            Err(e) => Err(e),
            Ok((h, q)) => if h.size - h.offset > end - q {
                Err(Error::Eof)
            } else if h.size < 8 {
                Err(Error::Structure)
            } else {
                let ce = p + h.size;
                match ipco_child_spec(d, h.box_type.0, q, ce) {
                    Err(e) => Err(e),
                    Ok(_) => match ipco_spec(d, ce, end) {
                        Err(e) => Err(e),
                        Ok(rest) => Ok(seq![(h.box_type.0, q, ce)] + rest),
                    },
                }
            },
        }
    }
}

/// Whether `props` is what the data of an `ipco` box from `p` to `end`
/// holds: it parses, with one property per child, in order.
pub open spec fn ipco_holds(props: Seq<Property>, d: Seq<u8>, p: int, end: int) -> bool {
    match ipco_spec(d, p, end) {
        Ok(children) => props.len() == children.len() && forall|i: int|
            0 <= i < children.len() ==> property_at(#[trigger] props[i], d, children[i]),
        Err(_) => false,
    }
}

/// The `ipco` spans (data start, end) and the entries of the `ipma` boxes of
/// an `iprp` box whose data runs from `p` to `end`, each child parsed and
/// consumed exactly (other children are passed over); or the first error.
pub open spec fn iprp_spec(d: Seq<u8>, p: int, end: int) -> Result<
    (Seq<(int, int)>, Seq<Seq<(u32, Seq<Association>)>>),
    Error,
>
    decreases end - p,
{
    if p >= end {
        Ok((Seq::empty(), Seq::empty()))
    } else {
        match header_spec(d, p, end) {
            Err(e) => Err(e),
            Ok((h, q)) => if h.size - h.offset > end - q {
                Err(Error::Eof)
            } else if h.size < 8 {
                Err(Error::Structure)
            } else {
                let ce = p + h.size;
                let t = h.box_type.0;
                let child: Result<
                    (Seq<(int, int)>, Seq<Seq<(u32, Seq<Association>)>>),
                    Error,
                > = if t == IPCO {
                    match ipco_spec(d, q, ce) {
                        Err(e) => Err(e),
                        Ok(_) => Ok((seq![(q, ce)], Seq::empty())),
                    }
                } else if t == IPMA {
                    match ipma_spec(d, q, ce) {
                        Err(e) => Err(e),
                        Ok((v, q2)) => if q2 != ce {
                            Err(Error::Structure)
                        } else {
                            Ok((Seq::empty(), seq![v]))
                        },
                    }
                } else {
                    Ok((Seq::empty(), Seq::empty()))
                };
                match child {
                    Err(e) => Err(e),
                    Ok((c, a)) => match iprp_spec(d, ce, end) {
                        Err(e) => Err(e),
                        Ok((cs, as_)) => Ok((c + cs, a + as_)),
                    },
                }
            },
        }
    }
}

/// The entries of several `ipma` boxes.
pub open spec fn ipmas_view(v: Seq<Vec<ItemPropertyAssociation>>) -> Seq<
    Seq<(u32, Seq<Association>)>,
> {
    v.map_values(|l: Vec<ItemPropertyAssociation>| ipma_view(l@))
}

/// Whether `raw` is what the data of an `iprp` box from `p` to `end` holds:
/// it parses, with the properties of each `ipco` child and the entries of
/// each `ipma` child, in order.
pub open spec fn iprp_holds(raw: RawProps, d: Seq<u8>, p: int, end: int) -> bool {
    match iprp_spec(d, p, end) {
        Ok((ipcos, ipmas)) => {
            &&& raw.containers@.len() == ipcos.len()
            &&& forall|i: int|
                0 <= i < ipcos.len() ==> ipco_holds(
                    #[trigger] raw.containers@[i]@,
                    d,
                    ipcos[i].0,
                    ipcos[i].1,
                )
            &&& ipmas_view(raw.associations@) == ipmas
        },
        Err(_) => false,
    }
}

/// Parses an `iprp` box's data, which runs to the end: its `ipco` and `ipma`
/// children are parsed, other children passed over; each child must be
/// consumed exactly.
#[verifier::rlimit(100)]
pub fn parse_iprp(from: &mut ByteReader) -> (r: Result<RawProps, Error>)
    requires
        old(from).wf(),
    ensures
        old(from).kept(final(from)),
        match iprp_spec(old(from).bytes(), old(from).pos(), old(from).end()) {
            Ok(_) => r is Ok && old(from).moved_on(final(from)) && final(from).pos() == old(
                from,
            ).end() && iprp_holds(r->Ok_0, old(from).bytes(), old(from).pos(), old(from).end()),
            Err(e) => r == Err::<RawProps, Error>(e),
        },
{
    let ghost d = from.bytes();
    let ghost end = from.end();
    let ghost c = from.pos();
    let mut containers: Vec<Vec<Property>> = Vec::new();
    let mut associations: Vec<Vec<ItemPropertyAssociation>> = Vec::new();
    let ghost mut seen: Seq<(int, int)> = Seq::empty();
    proof {
        assert(ipmas_view(associations@) =~= Seq::<Seq<(u32, Seq<Association>)>>::empty());
        match iprp_spec(d, c, end) {
            Ok((cs, as_)) => {
                assert(seen + cs =~= cs);
                assert(ipmas_view(associations@) + as_ =~= as_);
            },
            Err(_) => {},
        }
    }
    while from.limit() != 0
        invariant
            old(from).moved_on(from),
            d == old(from).bytes(),
            end == old(from).end(),
            c == old(from).pos(),
            iprp_spec(d, c, end) == match iprp_spec(d, from.pos(), end) {
                Err(e) => Err(e),
                Ok((cs, as_)) => Ok((seen + cs, ipmas_view(associations@) + as_)),
            },
            containers@.len() == seen.len(),
            forall|i: int|
                0 <= i < seen.len() ==> ipco_holds(#[trigger] containers@[i]@, d, seen[i].0, seen[i].1),
        decreases from.left(),
    {
        let ghost p = from.pos();
        let ghost s0 = seen;
        let ghost a0 = associations@;
        let child_header = read_header(from)?;
        let ghost q = from.pos();
        let saved = from.narrow(child_header.data_size())?;
        let ghost ce = p + child_header.size;
        let t = child_header.box_type.0;
        if t == IPCO {
            containers.push(parse_ipco(from)?);
            proof {
                seen = seen.push((q, ce));
            }
        } else if t == IPMA {
            associations.push(parse_ipma(from)?);
        } else {
            skip(from)?;
        }
        if from.limit() != 0 {
            return Err(Error::Structure);
        }
        from.restore(saved);
        proof {
            let sv = if t == IPCO {
                seq![(q, ce)]
            } else {
                Seq::<(int, int)>::empty()
            };
            let av = if t == IPMA {
                seq![ipma_spec(d, q, ce)->Ok_0.0]
            } else {
                Seq::<Seq<(u32, Seq<Association>)>>::empty()
            };
            assert(seen =~= s0 + sv);
            assert(ipmas_view(associations@) =~= ipmas_view(a0) + av);
            match iprp_spec(d, ce, end) {
                Ok((cs, as_)) => {
                    assert(iprp_spec(d, p, end) == Ok::<
                        (Seq<(int, int)>, Seq<Seq<(u32, Seq<Association>)>>),
                        Error,
                    >((sv + cs, av + as_)));
                    assert(seen + cs =~= s0 + (sv + cs));
                    assert(ipmas_view(associations@) + as_ =~= ipmas_view(a0) + (av + as_));
                },
                Err(e) => {
                    assert(iprp_spec(d, p, end) == Err::<
                        (Seq<(int, int)>, Seq<Seq<(u32, Seq<Association>)>>),
                        Error,
                    >(e));
                },
            }
        }
    }
    proof {
        assert(seen + Seq::<(int, int)>::empty() =~= seen);
        assert(ipmas_view(associations@) + Seq::<Seq<(u32, Seq<Association>)>>::empty()
            =~= ipmas_view(associations@));
    }
    Ok(RawProps { containers, associations })
}

/// Parses the data of one `ipco` child of type `t`, which runs to the end,
/// and must be consumed exactly.
fn parse_ipco_child(from: &mut ByteReader, t: FourCc) -> (r: Result<Property, Error>)
    requires
        old(from).wf(),
    ensures
        old(from).kept(final(from)),
        match ipco_child_spec(old(from).bytes(), t.0, old(from).pos(), old(from).end()) {
            Ok(_) => r is Ok && old(from).moved_on(final(from)) && final(from).pos() == old(
                from,
            ).end() && property_at(
                r->Ok_0,
                old(from).bytes(),
                (t.0, old(from).pos(), old(from).end()),
            ),
            Err(e) => r == Err::<Property, Error>(e),
        },
{
    reveal(ipco_child_spec);
    let property = if t.0 == ISPE {
        let (width, height) = parse_ispe(from)?;
        Property::Size(width, height)
    } else if t.0 == HVCC {
        Property::HvcCodecSettings(parse_hvcc(from)?)
    } else {
        skip(from)?;
        Property::Unknown(t)
    };
    if from.limit() != 0 {
        return Err(Error::Structure);
    }
    Ok(property)
}

/// Parses an `ipco` box's data, which runs to the end: one property per
/// child box, in order. `ispe` and `hvcC` are decoded and must be consumed
/// exactly; any other child is passed over and kept as `Unknown` with its
/// type.
#[verifier::rlimit(100)]
pub fn parse_ipco(from: &mut ByteReader) -> (r: Result<Vec<Property>, Error>)
    requires
        old(from).wf(),
    ensures
        old(from).kept(final(from)),
        match ipco_spec(old(from).bytes(), old(from).pos(), old(from).end()) {
            Ok(_) => r is Ok && old(from).moved_on(final(from)) && final(from).pos() == old(
                from,
            ).end() && ipco_holds(r->Ok_0@, old(from).bytes(), old(from).pos(), old(from).end()),
            Err(e) => r == Err::<Vec<Property>, Error>(e),
        },
{
    let ghost d = from.bytes();
    let ghost end = from.end();
    let ghost c = from.pos();
    let mut properties: Vec<Property> = Vec::new();
    let ghost mut seen: Seq<(u32, int, int)> = Seq::empty();
    proof {
        match ipco_spec(d, c, end) {
            Ok(rest) => {
                assert(seen + rest =~= rest);
            },
            Err(_) => {},
        }
    }
    while from.limit() != 0
        invariant
            old(from).moved_on(from),
            d == old(from).bytes(),
            end == old(from).end(),
            c == old(from).pos(),
            ipco_spec(d, c, end) == match ipco_spec(d, from.pos(), end) {
                Err(e) => Err(e),
                Ok(rest) => Ok(seen + rest),
            },
            properties@.len() == seen.len(),
            forall|i: int| 0 <= i < seen.len() ==> property_at(#[trigger] properties@[i], d, seen[i]),
        decreases from.left(),
    {
        let ghost p = from.pos();
        let ghost s0 = seen;
        let child_header = read_header(from)?;
        let ghost q = from.pos();
        let saved = from.narrow(child_header.data_size())?;
        let ghost ce = p + child_header.size;
        let ghost b = (child_header.box_type.0, q, ce);
        let property = parse_ipco_child(from, child_header.box_type)?;
        from.restore(saved);
        properties.push(property);
        proof {
            seen = seen.push(b);
            match ipco_spec(d, ce, end) {
                Ok(rest) => {
                    assert(ipco_spec(d, p, end) == Ok::<Seq<(u32, int, int)>, Error>(seq![b] + rest));
                    assert(seen + rest =~= s0 + (seq![b] + rest));
                },
                Err(e) => {
                    assert(ipco_spec(d, p, end) == Err::<Seq<(u32, int, int)>, Error>(e));
                },
            }
            assert forall|i: int| 0 <= i < seen.len() implies property_at(
                #[trigger] properties@[i],
                d,
                seen[i],
            ) by {
                if i < s0.len() {
                    assert(seen[i] == s0[i]);
                }
            }
        }
    }
    proof {
        assert(seen + Seq::<(u32, int, int)>::empty() =~= seen);
    }
    Ok(properties)
}

/// The widest property index that an `ipma` box with these flags can hold:
/// 15 bits when bit 0 of the flags is set, else 7.
pub open spec fn max_property_index(flags: u32) -> int {
    if flags % 2 == 1 {
        0x7fff
    } else {
        0x7f
    }
}

/// `count` associations from offset `p` of `d`, reads limited to `end`: 16
/// bits each when `wide`, else 8. The associations and where they end.
pub open spec fn associations_spec(d: Seq<u8>, p: int, end: int, count: nat, wide: bool) -> Result<
    (Seq<Association>, int),
    Error,
>
    decreases count,
{
    let w: int = if wide {
        2
    } else {
        1
    };
    if count == 0 {
        Ok((Seq::empty(), p))
    } else if end - p < w {
        Err(Error::Eof)
    } else {
        let a = if wide {
            association_of_u16(be_at(d, p, 2) as u16)
        } else {
            association_of_u8(d[p])
        };
        match associations_spec(d, p + w, end, (count - 1) as nat, wide) {
            Err(e) => Err(e),
            Ok((rest, q)) => Ok((seq![a] + rest, q)),
        }
    }
}

/// One `ipma` entry at offset `p`: the item id (16 bits in version 0, else
/// 32), the association count and the associations.
pub open spec fn ipma_entry_spec(d: Seq<u8>, p: int, end: int, version: u8, wide: bool) -> Result<
    ((u32, Seq<Association>), int),
    Error,
> {
    let w: int = if version < 1 {
        2
    } else {
        4
    };
    if end - p < w + 1 {
        Err(Error::Eof)
    } else {
        match associations_spec(d, p + w + 1, end, d[p + w] as nat, wide) {
            Err(e) => Err(e),
            Ok((assocs, q)) => Ok(((be_at(d, p, w) as u32, assocs), q)),
        }
    }
}

/// `count` `ipma` entries from offset `p`.
pub open spec fn ipma_entries_spec(
    d: Seq<u8>,
    p: int,
    end: int,
    count: nat,
    version: u8,
    wide: bool,
) -> Result<(Seq<(u32, Seq<Association>)>, int), Error>
    decreases count,
{
    if count == 0 {
        Ok((Seq::empty(), p))
    } else {
        match ipma_entry_spec(d, p, end, version, wide) {
            Err(e) => Err(e),
            Ok((entry, q)) => match ipma_entries_spec(d, q, end, (count - 1) as nat, version, wide) {
                Err(e) => Err(e),
                Ok((rest, q2)) => Ok((seq![entry] + rest, q2)),
            },
        }
    }
}

/// The entries of an `ipma` box whose data starts at `p`: a full-box header
/// (bit 0 of the flags selects 16-bit associations), an entry count, then the
/// entries.
pub open spec fn ipma_spec(d: Seq<u8>, p: int, end: int) -> Result<
    (Seq<(u32, Seq<Association>)>, int),
    Error,
> {
    if end - p < 8 {
        Err(Error::Eof)
    } else {
        let version = (be_at(d, p, 4) / 0x100_0000) as u8;
        let flags = (be_at(d, p, 4) % 0x100_0000) as u32;
        ipma_entries_spec(d, p + 8, end, be_at(d, p + 4, 4), version, flags % 2 == 1)
    }
}

/// The item id and associations of each entry.
pub open spec fn ipma_view(v: Seq<ItemPropertyAssociation>) -> Seq<(u32, Seq<Association>)> {
    v.map(|i: int, e: ItemPropertyAssociation| (e.item_id, e.associations@))
}

fn read_associations(from: &mut ByteReader, count: u8, wide: bool) -> (r: Result<
    Vec<Association>,
    Error,
>)
    requires
        old(from).wf(),
    ensures
        old(from).moved_on(final(from)),
        match associations_spec(old(from).bytes(), old(from).pos(), old(from).end(), count as nat, wide) {
            Ok((s, q)) => r is Ok && r->Ok_0@ == s && final(from).pos() == q,
            Err(e) => r == Err::<Vec<Association>, Error>(e),
        },
        r is Ok ==> forall|j: int|
            0 <= j < r->Ok_0@.len() ==> #[trigger] r->Ok_0@[j].property_index <= if wide {
                0x7fffint
            } else {
                0x7fint
            },
{
    let ghost d = from.bytes();
    let ghost end = from.end();
    let mut associations: Vec<Association> = Vec::new();
    let mut k: u8 = 0;
    while k < count
        invariant
            old(from).moved_on(from),
            d == old(from).bytes(),
            end == old(from).end(),
            k <= count,
            associations_spec(d, old(from).pos(), end, count as nat, wide) == match associations_spec(
                d,
                from.pos(),
                end,
                (count - k) as nat,
                wide,
            ) {
                Err(e) => Err(e),
                Ok((rest, q)) => Ok((associations@ + rest, q)),
            },
            forall|j: int|
                0 <= j < associations@.len() ==> #[trigger] associations@[j].property_index <= if wide {
                    0x7fffint
                } else {
                    0x7fint
                },
        decreases count - k,
    {
        let ghost before = associations@;
        let a = if wide {
            decode_association_u16(from.read_u16()?)
        } else {
            decode_association_u8(from.read_u8()?)
        };
        associations.push(a);
        k = k + 1;
        proof {
            assert forall|rest: Seq<Association>| #[trigger] (seq![a] + rest) == seq![a] + rest implies before + (
            seq![a] + rest) == associations@ + rest by {
                assert(before + (seq![a] + rest) =~= associations@ + rest);
            }
        }
    }
    proof {
        assert(associations@ + Seq::<Association>::empty() =~= associations@);
    }
    Ok(associations)
}

fn read_ipma_entry(from: &mut ByteReader, version: u8, wide: bool) -> (r: Result<
    ItemPropertyAssociation,
    Error,
>)
    requires
        old(from).wf(),
    ensures
        old(from).moved_on(final(from)),
        match ipma_entry_spec(old(from).bytes(), old(from).pos(), old(from).end(), version, wide) {
            Ok(((id, s), q)) => r is Ok && r->Ok_0.item_id == id && r->Ok_0.associations@ == s
                && final(from).pos() == q,
            Err(e) => r == Err::<ItemPropertyAssociation, Error>(e),
        },
        r is Ok ==> forall|j: int|
            0 <= j < r->Ok_0.associations@.len() ==> #[trigger] r->Ok_0.associations@[j].property_index
                <= if wide {
                0x7fffint
            } else {
                0x7fint
            },
{
    let w: usize = if version < 1 {
        2
    } else {
        4
    };
    if from.limit() < w + 1 {
        return Err(Error::Eof);
    }
    let item_id = if version < 1 {
        from.read_u16()? as u32
    } else {
        from.read_u32()?
    };
    let association_count = from.read_u8()?;
    let associations = read_associations(from, association_count, wide)?;
    Ok(ItemPropertyAssociation { item_id, associations })
}

/// Parses an `ipma` box's data: a full-box header, an entry count, then per
/// entry an item id (16 bits in version 0, else 32), an association count and
/// the associations, 16 bits each when bit 0 of the flags is set, else 8.
pub fn parse_ipma(from: &mut ByteReader) -> (r: Result<Vec<ItemPropertyAssociation>, Error>)
    requires
        old(from).wf(),
    ensures
        old(from).moved_on(final(from)),
        match ipma_spec(old(from).bytes(), old(from).pos(), old(from).end()) {
            Ok((s, q)) => r is Ok && ipma_view(r->Ok_0@) == s && final(from).pos() == q,
            Err(e) => r == Err::<Vec<ItemPropertyAssociation>, Error>(e),
        },
        r is Ok ==> forall|i: int, j: int|
            0 <= i < r->Ok_0@.len() && 0 <= j < r->Ok_0@[i].associations@.len()
                ==> #[trigger] r->Ok_0@[i].associations@[j].property_index <= max_property_index(
                (be_at(old(from).bytes(), old(from).pos(), 4) % 0x100_0000) as u32,
            ),
{
    if from.limit() < 8 {
        return Err(Error::Eof);
    }
    let extended = read_full_box_header(from)?;
    let entry_count = from.read_u32()?;
    let wide = extended.flags & 1 != 0;
    let ghost flags = extended.flags;
    let ghost d = from.bytes();
    let ghost end = from.end();
    let ghost p8 = from.pos();
    assert((flags & 1 != 0) == (flags % 2 == 1)) by (bit_vector);
    let mut property_associations: Vec<ItemPropertyAssociation> = Vec::new();
    let mut n: u32 = 0;
    while n < entry_count
        invariant
            old(from).moved_on(from),
            d == old(from).bytes(),
            end == old(from).end(),
            n <= entry_count,
            flags == (be_at(old(from).bytes(), old(from).pos(), 4) % 0x100_0000) as u32,
            wide == (flags % 2 == 1),
            ipma_spec(d, old(from).pos(), end) == match ipma_entries_spec(
                d,
                from.pos(),
                end,
                (entry_count - n) as nat,
                extended.version,
                wide,
            ) {
                Err(e) => Err(e),
                Ok((rest, q)) => Ok((ipma_view(property_associations@) + rest, q)),
            },
            forall|i: int, j: int|
                0 <= i < property_associations@.len() && 0 <= j
                    < property_associations@[i].associations@.len()
                    ==> #[trigger] property_associations@[i].associations@[j].property_index
                    <= max_property_index(flags),
        decreases entry_count - n,
    {
        let ghost before = property_associations@;
        let entry = read_ipma_entry(from, extended.version, wide)?;
        proof {
            assert forall|j: int| 0 <= j < entry.associations@.len() implies #[trigger] entry.associations@[j].property_index
                <= max_property_index(flags) by {
            }
        }
        property_associations.push(entry);
        n = n + 1;
        proof {
            let e = (entry.item_id, entry.associations@);
            assert(ipma_view(property_associations@) =~= ipma_view(before).push(e));
            assert forall|rest: Seq<(u32, Seq<Association>)>| #[trigger] (seq![e] + rest) == seq![e] + rest implies ipma_view(before) + (
            seq![e] + rest) == ipma_view(property_associations@) + rest by {
                assert(ipma_view(before) + (seq![e] + rest) =~= ipma_view(property_associations@)
                    + rest);
            }
        }
    }
    proof {
        assert(ipma_view(property_associations@) + Seq::<(u32, Seq<Association>)>::empty()
            =~= ipma_view(property_associations@));
    }
    Ok(property_associations)
}

/// The width and height of an `ispe` box whose data starts at `p`: a
/// full-box header, then the two 32-bit values. They and where they end.
pub open spec fn ispe_spec(d: Seq<u8>, p: int, end: int) -> Result<((u32, u32), int), Error> {
    if end - p < 12 {
        Err(Error::Eof)
    } else {
        Ok(((be_at(d, p + 4, 4) as u32, be_at(d, p + 8, 4) as u32), p + 12))
    }
}

/// Parses an `ispe` box's data: a full-box header, then width and height.
pub fn parse_ispe(from: &mut ByteReader) -> (r: Result<(u32, u32), Error>)
    requires
        old(from).wf(),
    ensures
        old(from).moved_on(final(from)),
        match ispe_spec(old(from).bytes(), old(from).pos(), old(from).end()) {
            Ok((v, q)) => r == Ok::<(u32, u32), Error>(v) && final(from).pos() == q,
            Err(e) => r == Err::<(u32, u32), Error>(e),
        },
{
    if from.limit() < 12 {
        return Err(Error::Eof);
    }
    let _ = read_full_box_header(from)?;
    let width = from.read_u32()?;
    let height = from.read_u32()?;
    Ok((width, height))
}

/// Decodes the fixed 22-byte part of an `hvcC` record.
fn parse_hvcc_header(bits: &mut Bits) -> (r: HvccHeader)
    requires
        old(bits).wf(),
        old(bits).pos() == 0,
        old(bits).bytes().len() == 22,
    ensures
        r == hvcc_header_spec(old(bits).bytes()),
        final(bits).wf(),
        final(bits).remaining() == 0,
{
    let configuration_version = bits.read_u8(8);
    let general_profile_space = bits.read_u8(2);
    let general_tier_flag = bits.read_bool();
    let general_profile_idc = bits.read_u8(5);
    let general_profile_compatibility_flags = bits.read_u32(32);
    let general_constraint_indicator_flags = bits.read_u64(48);
    let general_level_idc = bits.read_u8(8);
    bits.skip(4);
    let min_spatial_segmentation_idc = bits.read_u16(12);
    bits.skip(6);
    let parallelism_type = bits.read_u8(2);
    bits.skip(6);
    let chroma_format = bits.read_u8(2);
    bits.skip(5);
    let bit_depth_luma_minus8 = bits.read_u8(3);
    bits.skip(5);
    let bit_depth_chroma_minus8 = bits.read_u8(3);
    let avg_frame_rate = bits.read_u16(16);
    let constant_frame_rate = bits.read_u8(2);
    let num_temporal_layers = bits.read_u8(3);
    let temporal_id_nested = bits.read_bool();
    let length_size_minus_one = bits.read_u8(2);
    HvccHeader {
        configuration_version,
        general_profile_space,
        general_tier_flag,
        general_profile_idc,
        general_profile_compatibility_flags,
        general_constraint_indicator_flags,
        general_level_idc,
        min_spatial_segmentation_idc,
        parallelism_type,
        chroma_format,
        bit_depth_luma_minus8,
        bit_depth_chroma_minus8,
        avg_frame_rate,
        constant_frame_rate,
        num_temporal_layers,
        temporal_id_nested,
        length_size_minus_one,
    }
}

/// `count` NAL units from offset `p` of `d`, reads limited to `end`, each
/// with a 16-bit length before it. The units and where they end.
pub open spec fn units_spec(d: Seq<u8>, p: int, end: int, count: nat) -> Result<
    (Seq<Seq<u8>>, int),
    Error,
>
    decreases count,
{
    if count == 0 {
        Ok((Seq::empty(), p))
    } else if end - p < 2 || end - (p + 2) < be_at(d, p, 2) {
        Err(Error::Eof)
    } else {
        let q = p + 2 + be_at(d, p, 2);
        match units_spec(d, q, end, (count - 1) as nat) {
            Err(e) => Err(e),
            Ok((rest, q2)) => Ok((seq![d.subrange(p + 2, q)] + rest, q2)),
        }
    }
}

/// `count` arrays of NAL units from offset `p`: a type byte with its
/// reserved bit cleared, a 16-bit unit count, then the units.
pub open spec fn nal_arrays_spec(d: Seq<u8>, p: int, end: int, count: nat) -> Result<
    (Seq<(u8, Seq<Seq<u8>>)>, int),
    Error,
>
    decreases count,
{
    if count == 0 {
        Ok((Seq::empty(), p))
    } else if end - p < 3 {
        Err(Error::Eof)
    } else {
        match units_spec(d, p + 3, end, be_at(d, p + 1, 2)) {
            Err(e) => Err(e),
            Ok((units, q)) => match nal_arrays_spec(d, q, end, (count - 1) as nat) {
                Err(e) => Err(e),
                Ok((rest, q2)) => Ok((seq![(d[p] & 0xbfu8, units)] + rest, q2)),
            },
        }
    }
}

/// The contents of an `hvcC` box whose data starts at `p`: the fixed 22-byte
/// part, the array count, then the arrays.
pub open spec fn hvcc_spec(d: Seq<u8>, p: int, end: int) -> Result<
    (HvccHeader, Seq<(u8, Seq<Seq<u8>>)>, int),
    Error,
> {
    if end - p < 23 {
        Err(Error::Eof)
    } else {
        match nal_arrays_spec(d, p + 23, end, d[p + 22] as nat) {
            Err(e) => Err(e),
            Ok((arrays, q)) => Ok((hvcc_header_spec(d.subrange(p, p + 22)), arrays, q)),
        }
    }
}

/// The bytes of each unit.
pub open spec fn units_view(units: Seq<Vec<u8>>) -> Seq<Seq<u8>> {
    units.map(|i: int, u: Vec<u8>| u@)
}

/// The type byte and units of each array.
pub open spec fn nals_view(nals: Seq<Nal>) -> Seq<(u8, Seq<Seq<u8>>)> {
    nals.map(|i: int, n: Nal| (n.completeness_and_nal_unit_type, units_view(n.units@)))
}

fn read_units(from: &mut ByteReader, count: u16) -> (r: Result<Vec<Vec<u8>>, Error>)
    requires
        old(from).wf(),
    ensures
        old(from).moved_on(final(from)),
        match units_spec(old(from).bytes(), old(from).pos(), old(from).end(), count as nat) {
            Ok((s, q)) => r is Ok && units_view(r->Ok_0@) == s && final(from).pos() == q,
            Err(e) => r == Err::<Vec<Vec<u8>>, Error>(e),
        },
{
    let ghost d = from.bytes();
    let ghost end = from.end();
    let mut units: Vec<Vec<u8>> = Vec::new();
    let mut k: u16 = 0;
    while k < count
        invariant
            old(from).moved_on(from),
            d == old(from).bytes(),
            end == old(from).end(),
            k <= count,
            units_spec(d, old(from).pos(), end, count as nat) == match units_spec(
                d,
                from.pos(),
                end,
                (count - k) as nat,
            ) {
                Err(e) => Err(e),
                Ok((rest, q)) => Ok((units_view(units@) + rest, q)),
            },
        decreases count - k,
    {
        let ghost before = units@;
        if from.limit() < 2 {
            return Err(Error::Eof);
        }
        let nal_unit_length = from.read_u16()?;
        let unit = from.read_bytes(nal_unit_length as u64)?;
        let ghost v = unit@;
        units.push(unit);
        k = k + 1;
        proof {
            assert(units_view(units@) =~= units_view(before).push(v));
            assert forall|rest: Seq<Seq<u8>>| #[trigger] (seq![v] + rest) == seq![v] + rest implies units_view(before) + (
            seq![v] + rest) == units_view(units@) + rest by {
                assert(units_view(before) + (seq![v] + rest) =~= units_view(units@) + rest);
            }
        }
    }
    proof {
        assert(units_view(units@) + Seq::<Seq<u8>>::empty() =~= units_view(units@));
    }
    Ok(units)
}

/// Parses an `hvcC` box's data: the fixed 22-byte part, then the arrays of
/// parameter-set NAL units, each a type byte (its reserved bit cleared), a
/// unit count and units of 16-bit length.
pub fn parse_hvcc(from: &mut ByteReader) -> (r: Result<Hvcc, Error>)
    requires
        old(from).wf(),
    ensures
        old(from).moved_on(final(from)),
        match hvcc_spec(old(from).bytes(), old(from).pos(), old(from).end()) {
            Ok((h, arrays, q)) => r is Ok && r->Ok_0.header == h && nals_view(r->Ok_0.nals@)
                == arrays && final(from).pos() == q,
            Err(e) => r == Err::<Hvcc, Error>(e),
        },
        r is Ok ==> forall|i: int|
            0 <= i < r->Ok_0.nals@.len()
                ==> #[trigger] r->Ok_0.nals@[i].completeness_and_nal_unit_type & 0x40 == 0,
{
    if from.limit() < 23 {
        return Err(Error::Eof);
    }
    let mut bits = Bits::read_exact(from, 22)?;
    let header = parse_hvcc_header(&mut bits);

    let num_of_arrays = from.read_u8()?;
    let ghost d = from.bytes();
    let ghost end = from.end();
    let mut nals: Vec<Nal> = Vec::new();
    let mut n: u8 = 0;
    while n < num_of_arrays
        invariant
            old(from).moved_on(from),
            d == old(from).bytes(),
            end == old(from).end(),
            n <= num_of_arrays,
            hvcc_spec(d, old(from).pos(), end) == match nal_arrays_spec(
                d,
                from.pos(),
                end,
                (num_of_arrays - n) as nat,
            ) {
                Err(e) => Err(e),
                Ok((rest, q)) => Ok(
                    (
                        hvcc_header_spec(d.subrange(old(from).pos(), old(from).pos() + 22)),
                        nals_view(nals@) + rest,
                        q,
                    ),
                ),
            },
            header == hvcc_header_spec(d.subrange(old(from).pos(), old(from).pos() + 22)),
            forall|i: int|
                0 <= i < nals@.len() ==> #[trigger] nals@[i].completeness_and_nal_unit_type & 0x40
                    == 0,
        decreases num_of_arrays - n,
    {
        let ghost before = nals@;
        if from.limit() < 3 {
            return Err(Error::Eof);
        }
        let byte = from.read_u8()?;
        let completeness_and_nal_unit_type = byte & 0b1011_1111;
        assert(byte & 0xbfu8 & 0x40u8 == 0) by (bit_vector);
        let num_nal_units = from.read_u16()?;
        let units = read_units(from, num_nal_units)?;
        let nal = Nal { completeness_and_nal_unit_type, units };
        let ghost v = (nal.completeness_and_nal_unit_type, units_view(nal.units@));
        nals.push(nal);
        n = n + 1;
        proof {
            assert(nals_view(nals@) =~= nals_view(before).push(v));
            assert forall|rest: Seq<(u8, Seq<Seq<u8>>)>| #[trigger] (seq![v] + rest) == seq![v] + rest implies nals_view(
                before,
            ) + (seq![v] + rest) == nals_view(nals@) + rest by {
                assert(nals_view(before) + (seq![v] + rest) =~= nals_view(nals@) + rest);
            }
        }
    }
    proof {
        assert(nals_view(nals@) + Seq::<(u8, Seq<Seq<u8>>)>::empty() =~= nals_view(nals@));
    }
    Ok(Hvcc { header, nals })
}

} // verus!
