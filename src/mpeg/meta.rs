use vstd::prelude::*;

use crate::error::Error;
use crate::mpeg::be_at;
use crate::mpeg::fourcc_at;
use crate::mpeg::header_spec;
use crate::mpeg::iprp;
use crate::mpeg::iprp::iprp_holds;
use crate::mpeg::iprp::iprp_spec;
use crate::mpeg::parse_ftyp;
use crate::mpeg::read_full_box_header;
use crate::mpeg::read_header;
use crate::mpeg::read_u4_pair;
use crate::mpeg::read_value_of_size;
use crate::mpeg::skip;
use crate::mpeg::value_of_size_spec;
use crate::mpeg::BoxHeader;
use crate::mpeg::ByteReader;
use crate::mpeg::Extent;
use crate::mpeg::FileType;
use crate::mpeg::FourCc;
use crate::mpeg::Item;
use crate::mpeg::ItemInfo;
use crate::mpeg::FTYP;
use crate::mpeg::HEIC;
use crate::mpeg::HDLR;
use crate::mpeg::IINF;
use crate::mpeg::ILOC;
use crate::mpeg::INFE;
use crate::mpeg::IPRP;
use crate::mpeg::META;
use crate::mpeg::PITM;

verus! {

/// Everything found under a `meta` box, one list entry per child box of each
/// kind, in file order.
#[derive(Debug, Clone)]
pub struct RawMeta {
    pub handler: Vec<FourCc>,
    pub primary_item: Vec<u16>,
    pub item_locators: Vec<Vec<Item>>,
    pub item_infos: Vec<Vec<ItemInfo>>,
    pub item_props: Vec<iprp::RawProps>,
}

/// The version of the full box whose header is at `p`.
pub open spec fn version_at(d: Seq<u8>, p: int) -> int {
    (be_at(d, p, 4) / 0x100_0000) as int
}


/// The items of several `iloc` boxes.
pub open spec fn locators_view(v: Seq<Vec<Item>>) -> Seq<Seq<(u32, u16, u64, Seq<Extent>)>> {
    v.map_values(|l: Vec<Item>| l@.map(|i: int, it: Item| item_view(it)))
}

/// The item info entries of several `iinf` boxes.
pub open spec fn infos_view(v: Seq<Vec<ItemInfo>>) -> Seq<Seq<(u16, u16, u32, Seq<char>)>> {
    v.map_values(|l: Vec<ItemInfo>| l@.map(|i: int, x: ItemInfo| info_view(x)))
}

/// What the children of a `meta` box hold: handler types, primary item ids,
/// `iloc` items, `iinf` entries (box by box), and where each `iprp` box's
/// data starts and ends.
pub type MetaView = (
    Seq<FourCc>,
    Seq<u16>,
    Seq<Seq<(u32, u16, u64, Seq<Extent>)>>,
    Seq<Seq<(u16, u16, u32, Seq<char>)>>,
    Seq<(int, int)>,
);

/// Two views one after the other.
pub open spec fn meta_cat(a: MetaView, b: MetaView) -> MetaView {
    (a.0 + b.0, a.1 + b.1, a.2 + b.2, a.3 + b.3, a.4 + b.4)
}

/// The view of no children.
pub open spec fn meta_empty() -> MetaView {
    (Seq::empty(), Seq::empty(), Seq::empty(), Seq::empty(), Seq::empty())
}

/// What one child of a `meta` box, of type `t` with data from `q` to `e`,
/// holds: `hdlr`, `pitm`, `iloc`, `iinf` and `iprp` are parsed and must end
/// exactly at `e` (else `Error::Structure`); any other child is passed over.
#[verifier::opaque]
pub open spec fn meta_child_spec(d: Seq<u8>, t: u32, q: int, e: int) -> Result<MetaView, Error> {
    let z = meta_empty();
    if t == HDLR {
        match hdlr_spec(d, q, e) {
            Err(err) => Err(err),
            Ok((h, _)) => Ok((seq![h], z.1, z.2, z.3, z.4)),
        }
    } else if t == PITM {
        match pitm_spec(d, q, e) {
            Err(err) => Err(err),
            Ok((id, q2)) => if q2 != e {
                Err(Error::Structure)
            } else {
                Ok((z.0, seq![id], z.2, z.3, z.4))
            },
        }
    } else if t == ILOC {
        match iloc_spec(d, q, e) {
            Err(err) => Err(err),
            Ok((v, q2)) => if q2 != e {
                Err(Error::Structure)
            } else {
                Ok((z.0, z.1, seq![v], z.3, z.4))
            },
        }
    } else if t == IINF {
        match iinf_spec(d, q, e) {
            Err(err) => Err(err),
            Ok((v, q2)) => if q2 != e {
                Err(Error::Structure)
            } else {
                Ok((z.0, z.1, z.2, seq![v], z.4))
            },
        }
    } else if t == IPRP {
        match iprp_spec(d, q, e) {
            Err(err) => Err(err),
            Ok(_) => Ok((z.0, z.1, z.2, z.3, seq![(q, e)])),
        }
    } else {
        Ok(z)
    }
}

/// What the run of child boxes of a `meta` box from `p` to `end` holds; or
/// the first error.
pub open spec fn meta_children_spec(d: Seq<u8>, p: int, end: int) -> Result<MetaView, Error>
    decreases end - p,
{
    if p >= end {
        Ok(meta_empty())
    } else {
        match header_spec(d, p, end) {
            Err(e) => Err(e),
            Ok((h, q)) => if h.size - h.offset > end - q {
                Err(Error::Eof)
            } else if h.size < 8 {
                Err(Error::Structure)
            } else {
                let ce = p + h.size;
                match meta_child_spec(d, h.box_type.0, q, ce) {
                    Err(e) => Err(e),
                    Ok(c) => match meta_children_spec(d, ce, end) {
                        Err(e) => Err(e),
                        Ok(rest) => Ok(meta_cat(c, rest)),
                    },
                }
            },
        }
    }
}

/// What a `meta` box whose data runs from `p` to `end` holds: a full-box
/// header, then the children.
pub open spec fn meta_spec(d: Seq<u8>, p: int, end: int) -> Result<MetaView, Error> {
    if end - p < 4 {
        Err(Error::Eof)
    } else {
        meta_children_spec(d, p + 4, end)
    }
}

/// Whether `raw` is what the data of a `meta` box from `p` to `end` holds:
/// it parses, and the handler types, primary item ids, locators, item infos
/// and property boxes are those of its children, in order.
pub open spec fn meta_holds(raw: RawMeta, d: Seq<u8>, p: int, end: int) -> bool {
    match meta_spec(d, p, end) {
        Ok(m) => {
            &&& raw.handler@ == m.0
            &&& raw.primary_item@ == m.1
            &&& locators_view(raw.item_locators@) == m.2
            &&& infos_view(raw.item_infos@) == m.3
            &&& raw.item_props@.len() == m.4.len()
            &&& forall|i: int|
                0 <= i < m.4.len() ==> iprp_holds(#[trigger] raw.item_props@[i], d, m.4[i].0, m.4[i].1)
        },
        Err(_) => false,
    }
}

/// Parses the data of one `meta` child of type `t`, which runs to the end,
/// and adds what it holds to the list for its kind.
#[verifier::rlimit(100)]
fn parse_meta_child(
    from: &mut ByteReader,
    t: u32,
    handler: &mut Vec<FourCc>,
    primary_item: &mut Vec<u16>,
    item_locators: &mut Vec<Vec<Item>>,
    item_infos: &mut Vec<Vec<ItemInfo>>,
    item_props: &mut Vec<iprp::RawProps>,
) -> (r: Result<(), Error>)
    requires
        old(from).wf(),
    ensures
        old(from).kept(final(from)),
        match meta_child_spec(old(from).bytes(), t, old(from).pos(), old(from).end()) {
            Ok(cv) => {
                &&& r is Ok
                &&& old(from).moved_on(final(from))
                &&& final(from).pos() == old(from).end()
                &&& final(handler)@ == old(handler)@ + cv.0
                &&& final(primary_item)@ == old(primary_item)@ + cv.1
                &&& locators_view(final(item_locators)@) == locators_view(old(item_locators)@) + cv.2
                &&& infos_view(final(item_infos)@) == infos_view(old(item_infos)@) + cv.3
                &&& cv.4 == if t == IPRP {
                    seq![(old(from).pos(), old(from).end())]
                } else {
                    Seq::<(int, int)>::empty()
                }
                &&& t == IPRP ==> final(item_props)@.len() == old(item_props)@.len() + 1
                    && final(item_props)@.drop_last() == old(item_props)@ && iprp_holds(
                    final(item_props)@.last(),
                    old(from).bytes(),
                    old(from).pos(),
                    old(from).end(),
                )
                &&& t != IPRP ==> final(item_props)@ == old(item_props)@
            },
            Err(e) => r == Err::<(), Error>(e),
        },
{
    reveal(meta_child_spec);
    let ghost d = from.bytes();
    let ghost q = from.pos();
    let ghost e = from.end();
    if t == HDLR {
        let h = parse_hdlr(from)?;
        handler.push(h);
    } else if t == PITM {
        let id = parse_pitm(from)?;
        primary_item.push(id);
    } else if t == ILOC {
        let items = parse_iloc(from)?;
        item_locators.push(items);
    } else if t == IINF {
        let infos = parse_iinf(from)?;
        item_infos.push(infos);
    } else if t == IPRP {
        let props = iprp::parse_iprp(from)?;
        item_props.push(props);
    } else {
        skip(from)?;
    }
    if from.limit() != 0 {
        return Err(Error::Structure);
    }
    proof {
        let cv = meta_child_spec(d, t, q, e)->Ok_0;
        assert(final(handler)@ =~= old(handler)@ + cv.0);
        assert(final(primary_item)@ =~= old(primary_item)@ + cv.1);
        assert(locators_view(final(item_locators)@) =~= locators_view(old(item_locators)@) + cv.2);
        assert(infos_view(final(item_infos)@) =~= infos_view(old(item_infos)@) + cv.3);
        if t == IPRP {
            assert(final(item_props)@.drop_last() =~= old(item_props)@);
        }
    }
    Ok(())
}

/// Parses a `meta` box's data, which runs to the end: a full-box header,
/// then child boxes. `hdlr`, `pitm`, `iloc`, `iinf` and `iprp` are parsed,
/// others passed over; each child must be consumed exactly.
#[verifier::rlimit(100)]
pub fn parse(from: &mut ByteReader) -> (r: Result<RawMeta, Error>)
    requires
        old(from).wf(),
    ensures
        old(from).kept(final(from)),
        match meta_spec(old(from).bytes(), old(from).pos(), old(from).end()) {
            Ok(_) => r is Ok && old(from).moved_on(final(from)) && final(from).pos() == old(
                from,
            ).end() && meta_holds(r->Ok_0, old(from).bytes(), old(from).pos(), old(from).end()),
            Err(e) => r == Err::<RawMeta, Error>(e),
        },
{
    let _ = read_full_box_header(from)?;
    let ghost d = from.bytes();
    let ghost end = from.end();
    let ghost c = from.pos();

    let mut handler: Vec<FourCc> = Vec::new();
    let mut primary_item: Vec<u16> = Vec::new();
    let mut item_locators: Vec<Vec<Item>> = Vec::new();
    let mut item_infos: Vec<Vec<ItemInfo>> = Vec::new();
    let mut item_props: Vec<iprp::RawProps> = Vec::new();
    let ghost mut seen: Seq<(int, int)> = Seq::empty();
    proof {
        assert(locators_view(item_locators@) =~= Seq::<Seq<(u32, u16, u64, Seq<Extent>)>>::empty());
        assert(infos_view(item_infos@) =~= Seq::<Seq<(u16, u16, u32, Seq<char>)>>::empty());
        match meta_children_spec(d, c, end) {
            Ok(m) => {
                assert(meta_cat(
                    (handler@, primary_item@, locators_view(item_locators@), infos_view(item_infos@), seen),
                    m,
                ) =~= m);
            },
            Err(_) => {},
        }
    }

    while from.limit() != 0
        invariant
            old(from).moved_on(from),
            d == old(from).bytes(),
            end == old(from).end(),
            c == old(from).pos() + 4,
            meta_spec(d, old(from).pos(), end) == match meta_children_spec(d, from.pos(), end) {
                Err(e) => Err(e),
                Ok(rest) => Ok(
                    meta_cat(
                        (
                            handler@,
                            primary_item@,
                            locators_view(item_locators@),
                            infos_view(item_infos@),
                            seen,
                        ),
                        rest,
                    ),
                ),
            },
            item_props@.len() == seen.len(),
            forall|i: int|
                0 <= i < seen.len() ==> iprp_holds(#[trigger] item_props@[i], d, seen[i].0, seen[i].1),
        decreases from.left(),
    {
        let ghost p = from.pos();
        let ghost acc0 = (
            handler@,
            primary_item@,
            locators_view(item_locators@),
            infos_view(item_infos@),
            seen,
        );
        let ghost s0 = seen;
        let ghost p0 = item_props@;
        let child_header = read_header(from)?;
        let ghost q = from.pos();
        let saved = from.narrow(child_header.data_size())?;
        let ghost ce = p + child_header.size;
        let t = child_header.box_type.0;
        parse_meta_child(
            from,
            t,
            &mut handler,
            &mut primary_item,
            &mut item_locators,
            &mut item_infos,
            &mut item_props,
        )?;
        proof {
            if t == IPRP {
                seen = seen.push((q, ce));
            }
        }
        from.restore(saved);
        proof {
            let cv = meta_child_spec(d, t, q, ce)->Ok_0;
            assert(meta_child_spec(d, t, q, ce) is Ok);
            reveal(meta_child_spec);
            let acc1 = (
                handler@,
                primary_item@,
                locators_view(item_locators@),
                infos_view(item_infos@),
                seen,
            );
            assert(acc1 == meta_cat(acc0, cv)) by {
                assert(handler@ =~= acc0.0 + cv.0);
                assert(primary_item@ =~= acc0.1 + cv.1);
                assert(locators_view(item_locators@) =~= acc0.2 + cv.2);
                assert(infos_view(item_infos@) =~= acc0.3 + cv.3);
                assert(seen =~= acc0.4 + cv.4);
            }
            match meta_children_spec(d, ce, end) {
                Ok(rest) => {
                    assert(meta_children_spec(d, p, end) == Ok::<MetaView, Error>(meta_cat(cv, rest)));
                    assert(meta_cat(acc1, rest) =~~= meta_cat(acc0, meta_cat(cv, rest)));
                },
                Err(e) => {
                    assert(meta_children_spec(d, p, end) == Err::<MetaView, Error>(e));
                },
            }
            assert forall|i: int| 0 <= i < seen.len() implies iprp_holds(
                #[trigger] item_props@[i],
                d,
                seen[i].0,
                seen[i].1,
            ) by {
                if i < s0.len() {
                    assert(seen[i] == s0[i]);
                    assert(item_props@[i] == p0[i]);
                }
            }
        }
    }
    proof {
        assert(meta_cat(
            (handler@, primary_item@, locators_view(item_locators@), infos_view(item_infos@), seen),
            meta_empty(),
        ) =~~= (handler@, primary_item@, locators_view(item_locators@), infos_view(item_infos@), seen));
    }

    Ok(RawMeta { handler, primary_item, item_locators, item_infos, item_props })
}

/// The handler type of an `hdlr` box whose data runs from `p` to `end`:
/// at least 16 bytes, a full-box header of version 0, four pre-defined bytes,
/// the handler type, then a name that is passed over. The type and where the
/// box's data is left (its end).
pub open spec fn hdlr_spec(d: Seq<u8>, p: int, end: int) -> Result<(FourCc, int), Error> {
    if end - p < 16 {
        Err(Error::Structure)
    } else if version_at(d, p) != 0 {
        Err(Error::Version)
    } else {
        Ok((fourcc_at(d, p + 8), end))
    }
}

/// The primary item id of a `pitm` box whose data starts at `p`: a full-box
/// header of version 0 and a 16-bit id. The id and where it ends.
pub open spec fn pitm_spec(d: Seq<u8>, p: int, end: int) -> Result<(u16, int), Error> {
    if end - p < 4 {
        Err(Error::Eof)
    } else if version_at(d, p) != 0 {
        Err(Error::Version)
    } else if end - p < 6 {
        Err(Error::Eof)
    } else {
        Ok((be_at(d, p + 4, 2) as u16, p + 6))
    }
}

/// Parses an `hdlr` box's data, which runs to the end.
pub fn parse_hdlr(from: &mut ByteReader) -> (r: Result<FourCc, Error>)
    requires
        old(from).wf(),
    ensures
        old(from).kept(final(from)),
        match hdlr_spec(old(from).bytes(), old(from).pos(), old(from).end()) {
            Ok((t, q)) => r == Ok::<FourCc, Error>(t) && old(from).moved_on(final(from))
                && final(from).pos() == q,
            Err(e) => r == Err::<FourCc, Error>(e),
        },
{
    if from.limit() < 16 {
        return Err(Error::Structure);
    }
    let extended = read_full_box_header(from)?;
    if extended.version != 0 {
        return Err(Error::Version);
    }
    from.skip(4)?;
    let ret = FourCc(from.read_u32()?);
    skip(from)?;
    Ok(ret)
}

/// Parses a `pitm` box's data.
pub fn parse_pitm(from: &mut ByteReader) -> (r: Result<u16, Error>)
    requires
        old(from).wf(),
    ensures
        old(from).moved_on(final(from)),
        match pitm_spec(old(from).bytes(), old(from).pos(), old(from).end()) {
            Ok((id, q)) => r == Ok::<u16, Error>(id) && final(from).pos() == q,
            Err(e) => r == Err::<u16, Error>(e),
        },
{
    let extended = read_full_box_header(from)?;
    if extended.version != 0 {
        return Err(Error::Version);
    }
    from.read_u16()
}

/// `count` extents from offset `p` of `d`, reads limited to `end`: an index
/// of `index_size` bytes (none when it is 0, and the index is then 0), an
/// offset and a length. The extents and where they end.
pub open spec fn extents_spec(
    d: Seq<u8>,
    p: int,
    end: int,
    count: nat,
    index_size: u8,
    offset_size: u8,
    length_size: u8,
) -> Result<(Seq<Extent>, int), Error>
    decreases count,
{
    if count == 0 {
        Ok((Seq::empty(), p))
    } else {
        let index = if index_size > 0 {
            value_of_size_spec(d, p, end, index_size)
        } else {
            Ok((0u64, p))
        };
        match index {
            Err(e) => Err(e),
            Ok((index, q1)) => match value_of_size_spec(d, q1, end, offset_size) {
                Err(e) => Err(e),
                Ok((offset, q2)) => match value_of_size_spec(d, q2, end, length_size) {
                    Err(e) => Err(e),
                    Ok((length, q3)) => match extents_spec(
                        d,
                        q3,
                        end,
                        (count - 1) as nat,
                        index_size,
                        offset_size,
                        length_size,
                    ) {
                        Err(e) => Err(e),
                        Ok((rest, q4)) => Ok((seq![Extent { index, offset, length }] + rest, q4)),
                    },
                },
            },
        }
    }
}

/// The id, data reference index, base offset and extents of an item.
pub open spec fn item_view(item: Item) -> (u32, u16, u64, Seq<Extent>) {
    (item.id, item.data_reference_index, item.base_offset, item.extents@)
}

/// The field widths of an `iloc` box: offset, length, base offset, index.
pub struct IlocSizes {
    pub offset_size: u8,
    pub length_size: u8,
    pub base_offset_size: u8,
    pub index_size: u8,
}

/// One `iloc` item at offset `p`: its id (16 bits before version 2, else
/// 32), from version 1 a reserved byte and the construction method, the data
/// reference index, the base offset, the extent count and the extents.
pub open spec fn iloc_item_spec(d: Seq<u8>, p: int, end: int, version: u8, sizes: IlocSizes) -> Result<
    ((u32, u16, u64, Seq<Extent>), int),
    Error,
> {
    let id_width: int = if version < 2 {
        2
    } else {
        4
    };
    let fixed = id_width + (if version > 0 {
        2int
    } else {
        0int
    }) + 2;
    if end - p < fixed {
        Err(Error::Eof)
    } else {
        match value_of_size_spec(d, p + fixed, end, sizes.base_offset_size) {
            Err(e) => Err(e),
            Ok((base, q1)) => if end - q1 < 2 {
                Err(Error::Eof)
            } else {
                match extents_spec(
                    d,
                    q1 + 2,
                    end,
                    be_at(d, q1, 2),
                    sizes.index_size,
                    sizes.offset_size,
                    sizes.length_size,
                ) {
                    Err(e) => Err(e),
                    Ok((extents, q2)) => Ok(
                        (
                            (
                                be_at(d, p, id_width) as u32,
                                be_at(d, p + fixed - 2, 2) as u16,
                                base,
                                extents,
                            ),
                            q2,
                        ),
                    ),
                }
            },
        }
    }
}

/// `count` `iloc` items from offset `p`.
pub open spec fn iloc_items_spec(
    d: Seq<u8>,
    p: int,
    end: int,
    count: nat,
    version: u8,
    sizes: IlocSizes,
) -> Result<(Seq<(u32, u16, u64, Seq<Extent>)>, int), Error>
    decreases count,
{
    if count == 0 {
        Ok((Seq::empty(), p))
    } else {
        match iloc_item_spec(d, p, end, version, sizes) {
            Err(e) => Err(e),
            Ok((item, q)) => match iloc_items_spec(d, q, end, (count - 1) as nat, version, sizes) {
                Err(e) => Err(e),
                Ok((rest, q2)) => Ok((seq![item] + rest, q2)),
            },
        }
    }
}

/// The items of an `iloc` box whose data starts at `p`: a full-box header
/// of version 0, 1 or 2, the field widths (no index before version 1), the
/// item count (16 bits before version 2, else 32), then the items.
pub open spec fn iloc_spec(d: Seq<u8>, p: int, end: int) -> Result<
    (Seq<(u32, u16, u64, Seq<Extent>)>, int),
    Error,
> {
    let version = (be_at(d, p, 4) / 0x100_0000) as u8;
    let count_width: int = if version < 2 {
        2
    } else {
        4
    };
    if end - p < 4 {
        Err(Error::Eof)
    } else if version > 2 {
        Err(Error::Version)
    } else if end - p < 6 + count_width {
        Err(Error::Eof)
    } else {
        let sizes = IlocSizes {
            offset_size: d[p + 4] / 16,
            length_size: d[p + 4] % 16,
            base_offset_size: d[p + 5] / 16,
            index_size: if version == 0 {
                0
            } else {
                d[p + 5] % 16
            },
        };
        iloc_items_spec(d, p + 6 + count_width, end, be_at(d, p + 6, count_width), version, sizes)
    }
}

fn read_extents(from: &mut ByteReader, count: u16, sizes: &IlocSizes) -> (r: Result<
    Vec<Extent>,
    Error,
>)
    requires
        old(from).wf(),
    ensures
        old(from).moved_on(final(from)),
        match extents_spec(
            old(from).bytes(),
            old(from).pos(),
            old(from).end(),
            count as nat,
            sizes.index_size,
            sizes.offset_size,
            sizes.length_size,
        ) {
            Ok((s, q)) => r is Ok && r->Ok_0@ == s && final(from).pos() == q,
            Err(e) => r == Err::<Vec<Extent>, Error>(e),
        },
        r is Ok && sizes.index_size == 0 ==> forall|j: int|
            0 <= j < r->Ok_0@.len() ==> #[trigger] r->Ok_0@[j].index == 0,
{
    let ghost d = from.bytes();
    let ghost end = from.end();
    let mut extents: Vec<Extent> = Vec::new();
    let mut k: u16 = 0;
    while k < count
        invariant
            old(from).moved_on(from),
            d == old(from).bytes(),
            end == old(from).end(),
            k <= count,
            extents_spec(
                d,
                old(from).pos(),
                end,
                count as nat,
                sizes.index_size,
                sizes.offset_size,
                sizes.length_size,
            ) == match extents_spec(
                d,
                from.pos(),
                end,
                (count - k) as nat,
                sizes.index_size,
                sizes.offset_size,
                sizes.length_size,
            ) {
                Err(e) => Err(e),
                Ok((rest, q)) => Ok((extents@ + rest, q)),
            },
            sizes.index_size == 0 ==> forall|j: int|
                0 <= j < extents@.len() ==> #[trigger] extents@[j].index == 0,
        decreases count - k,
    {
        let ghost before = extents@;
        let index = if sizes.index_size > 0 {
            read_value_of_size(from, sizes.index_size)?
        } else {
            0
        };
        let offset = read_value_of_size(from, sizes.offset_size)?;
        let length = read_value_of_size(from, sizes.length_size)?;
        let e = Extent { index, offset, length };
        extents.push(e);
        k = k + 1;
        proof {
            assert forall|rest: Seq<Extent>| #[trigger] (seq![e] + rest) == seq![e] + rest implies before + (
            seq![e] + rest) == extents@ + rest by {
                assert(before + (seq![e] + rest) =~= extents@ + rest);
            }
        }
    }
    proof {
        assert(extents@ + Seq::<Extent>::empty() =~= extents@);
    }
    Ok(extents)
}

fn read_iloc_item(from: &mut ByteReader, version: u8, sizes: &IlocSizes) -> (r: Result<Item, Error>)
    requires
        old(from).wf(),
    ensures
        old(from).moved_on(final(from)),
        match iloc_item_spec(old(from).bytes(), old(from).pos(), old(from).end(), version, *sizes) {
            Ok((s, q)) => r is Ok && item_view(r->Ok_0) == s && final(from).pos() == q,
            Err(e) => r == Err::<Item, Error>(e),
        },
        r is Ok && sizes.index_size == 0 ==> forall|j: int|
            0 <= j < r->Ok_0.extents@.len() ==> #[trigger] r->Ok_0.extents@[j].index == 0,
{
    let fixed: usize = (if version < 2 {
        2
    } else {
        4
    }) + (if version > 0 {
        2
    } else {
        0
    }) + 2;
    if from.limit() < fixed {
        return Err(Error::Eof);
    }
    let id = if version < 2 {
        from.read_u16()? as u32
    } else {
        from.read_u32()?
    };
    if version > 0 {
        let _reserved = from.read_u8()?;
        let (_, _construction_method) = read_u4_pair(from)?;
    }
    let data_reference_index = from.read_u16()?;
    let base_offset = read_value_of_size(from, sizes.base_offset_size)?;
    let extent_count = from.read_u16()?;
    let extents = read_extents(from, extent_count, sizes)?;
    Ok(Item { id, data_reference_index, base_offset, extents })
}

/// Parses an `iloc` box's data: a full-box header of version 0, 1 or 2, the
/// field widths (offset and length, then base offset and index; no index in
/// version 0), the item count, and per item its id, data reference index,
/// base offset and extents. Widths other than 0, 4 and 8 are refused.
pub fn parse_iloc(from: &mut ByteReader) -> (r: Result<Vec<Item>, Error>)
    requires
        old(from).wf(),
    ensures
        old(from).moved_on(final(from)),
        match iloc_spec(old(from).bytes(), old(from).pos(), old(from).end()) {
            Ok((s, q)) => r is Ok && r->Ok_0@.map(|i: int, item: Item| item_view(item)) == s
                && final(from).pos() == q,
            Err(e) => r == Err::<Vec<Item>, Error>(e),
        },
        r is Ok && version_at(old(from).bytes(), old(from).pos()) == 0 ==> forall|i: int, j: int|
            0 <= i < r->Ok_0@.len() && 0 <= j < r->Ok_0@[i].extents@.len()
                ==> #[trigger] r->Ok_0@[i].extents@[j].index == 0,
{
    let extended = read_full_box_header(from)?;
    if extended.version > 2 {
        return Err(Error::Version);
    }
    let count_width: usize = if extended.version < 2 {
        2
    } else {
        4
    };
    if from.limit() < 2 + count_width {
        return Err(Error::Eof);
    }
    let (offset_size, length_size) = read_u4_pair(from)?;
    let (base_offset_size, index_size_field) = read_u4_pair(from)?;
    let sizes = IlocSizes {
        offset_size,
        length_size,
        base_offset_size,
        index_size: if extended.version == 0 {
            0
        } else {
            index_size_field
        },
    };

    let item_count = if extended.version < 2 {
        from.read_u16()? as u32
    } else {
        from.read_u32()?
    };

    let ghost d = from.bytes();
    let ghost end = from.end();
    let mut items: Vec<Item> = Vec::new();
    let mut n: u32 = 0;
    while n < item_count
        invariant
            old(from).moved_on(from),
            d == old(from).bytes(),
            end == old(from).end(),
            n <= item_count,
            extended.version == version_at(old(from).bytes(), old(from).pos()),
            extended.version <= 2,
            extended.version == 0 ==> sizes.index_size == 0,
            iloc_spec(d, old(from).pos(), end) == match iloc_items_spec(
                d,
                from.pos(),
                end,
                (item_count - n) as nat,
                extended.version,
                sizes,
            ) {
                Err(e) => Err(e),
                Ok((rest, q)) => Ok((items@.map(|i: int, item: Item| item_view(item)) + rest, q)),
            },
            extended.version == 0 ==> forall|i: int, j: int|
                0 <= i < items@.len() && 0 <= j < items@[i].extents@.len()
                    ==> #[trigger] items@[i].extents@[j].index == 0,
        decreases item_count - n,
    {
        let ghost before = items@;
        let item = read_iloc_item(from, extended.version, &sizes)?;
        items.push(item);
        n = n + 1;
        proof {
            let v = item_view(item);
            assert(items@.map(|i: int, item: Item| item_view(item)) =~= before.map(
                |i: int, item: Item| item_view(item),
            ).push(v));
            assert forall|rest: Seq<(u32, u16, u64, Seq<Extent>)>| #[trigger] (seq![v] + rest) == seq![v]
                + rest implies before.map(|i: int, item: Item| item_view(item)) + (seq![v] + rest)
                == items@.map(|i: int, item: Item| item_view(item)) + rest by {
                assert(before.map(|i: int, item: Item| item_view(item)) + (seq![v] + rest)
                    =~= items@.map(|i: int, item: Item| item_view(item)) + rest);
            }
        }
    }
    proof {
        assert(items@.map(|i: int, item: Item| item_view(item)) + Seq::<
            (u32, u16, u64, Seq<Extent>),
        >::empty() =~= items@.map(|i: int, item: Item| item_view(item)));
    }
    Ok(items)
}

/// Names the text that std's lossy UTF-8 decoding makes of a byte string.
pub uninterp spec fn utf8_lossy(b: Seq<u8>) -> Seq<char>;

/// Relies on std's `String::from_utf8_lossy`: the text of the bytes, with
/// invalid sequences replaced; the result depends on the bytes alone.
#[verifier::external_body]
pub(crate) fn lossy_string(b: &[u8]) -> (r: String)
    ensures
        r@ == utf8_lossy(b@),
{
    String::from_utf8_lossy(b).into_owned()
}

/// The offset of the first zero byte of `d` from `p` on, or `end` when
/// there is none before it.
pub open spec fn nul_end(d: Seq<u8>, p: int, end: int) -> int
    decreases end - p,
{
    if p >= end {
        end
    } else if d[p] == 0 {
        p
    } else {
        nul_end(d, p + 1, end)
    }
}

/// Reads bytes up to the end or to a zero byte, which is consumed but not
/// kept.
fn read_until_nul(from: &mut ByteReader) -> (r: Vec<u8>)
    requires
        old(from).wf(),
    ensures
        old(from).moved_on(final(from)),
        ({
            let k = nul_end(old(from).bytes(), old(from).pos(), old(from).end());
            &&& r@ == old(from).bytes().subrange(old(from).pos(), k)
            &&& final(from).pos() == if k < old(from).end() {
                k + 1
            } else {
                k
            }
        }),
{
    let ghost d = from.bytes();
    let ghost end = from.end();
    let mut out: Vec<u8> = Vec::new();
    while from.limit() != 0
        invariant
            old(from).moved_on(from),
            d == old(from).bytes(),
            end == old(from).end(),
            out@ == d.subrange(old(from).pos(), from.pos()),
            nul_end(d, old(from).pos(), end) == nul_end(d, from.pos(), end),
        decreases from.left(),
    {
        let b = from.read_u8().unwrap();
        if b == 0 {
            return out;
        }
        out.push(b);
        assert(out@ == d.subrange(old(from).pos(), from.pos()));
    }
    out
}

/// What an item info entry says of an item: its id, protection index, type
/// and name.
pub open spec fn info_view(info: ItemInfo) -> (u16, u16, u32, Seq<char>) {
    (info.id, info.protection_index, info.item_type.0, info.item_name@)
}

/// One `infe` box at offset `p` of `d`, reads limited to `end`: a box header
/// of type `infe`, a full-box header of version 2, the item id, protection
/// index and type, and a name up to a zero byte or the end of the box, which
/// the name must reach.
pub open spec fn infe_spec(d: Seq<u8>, p: int, end: int) -> Result<
    ((u16, u16, u32, Seq<char>), int),
    Error,
> {
    match header_spec(d, p, end) {
        Err(e) => Err(e),
        Ok((h, q)) => if h.box_type.0 != INFE {
            Err(Error::Structure)
        } else if h.size - h.offset > end - q {
            Err(Error::Eof)
        } else {
            let box_end = q + h.size - h.offset;
            if box_end - q < 4 {
                Err(Error::Eof)
            } else if version_at(d, q) != 2 {
                Err(Error::Version)
            } else if box_end - q < 12 {
                Err(Error::Eof)
            } else {
                let k = nul_end(d, q + 12, box_end);
                let after = if k < box_end {
                    k + 1
                } else {
                    k
                };
                if after != box_end {
                    Err(Error::Structure)
                } else {
                    Ok(
                        (
                            (
                                be_at(d, q + 4, 2) as u16,
                                be_at(d, q + 6, 2) as u16,
                                be_at(d, q + 8, 4) as u32,
                                utf8_lossy(d.subrange(q + 12, k)),
                            ),
                            box_end,
                        ),
                    )
                }
            }
        },
    }
}

/// `count` `infe` boxes from offset `p`.
pub open spec fn infe_entries_spec(d: Seq<u8>, p: int, end: int, count: nat) -> Result<
    (Seq<(u16, u16, u32, Seq<char>)>, int),
    Error,
>
    decreases count,
{
    if count == 0 {
        Ok((Seq::empty(), p))
    } else {
        match infe_spec(d, p, end) {
            Err(e) => Err(e),
            Ok((info, q)) => match infe_entries_spec(d, q, end, (count - 1) as nat) {
                Err(e) => Err(e),
                Ok((rest, q2)) => Ok((seq![info] + rest, q2)),
            },
        }
    }
}

/// The entries of an `iinf` box whose data starts at `p`: a full-box header
/// of version 0, a 16-bit entry count, then the `infe` boxes.
pub open spec fn iinf_spec(d: Seq<u8>, p: int, end: int) -> Result<
    (Seq<(u16, u16, u32, Seq<char>)>, int),
    Error,
> {
    if end - p < 4 {
        Err(Error::Eof)
    } else if version_at(d, p) != 0 {
        Err(Error::Version)
    } else if end - p < 6 {
        Err(Error::Eof)
    } else {
        infe_entries_spec(d, p + 6, end, be_at(d, p + 4, 2))
    }
}

fn read_infe(from: &mut ByteReader) -> (r: Result<ItemInfo, Error>)
    requires
        old(from).wf(),
    ensures
        old(from).kept(final(from)),
        match infe_spec(old(from).bytes(), old(from).pos(), old(from).end()) {
            Ok((s, q)) => r is Ok && info_view(r->Ok_0) == s && old(from).moved_on(final(from))
                && final(from).pos() == q,
            Err(e) => r == Err::<ItemInfo, Error>(e),
        },
{
    let header = read_header(from)?;
    if header.box_type.0 != INFE {
        return Err(Error::Structure);
    }
    let saved = from.narrow(header.data_size())?;

    let infe = read_full_box_header(from)?;
    if infe.version != 2 {
        return Err(Error::Version);
    }
    if from.limit() < 8 {
        return Err(Error::Eof);
    }
    let id = from.read_u16()?;
    let protection_index = from.read_u16()?;
    let item_type = FourCc(from.read_u32()?);
    let name = read_until_nul(from);

    if from.limit() != 0 {
        return Err(Error::Structure);
    }
    from.restore(saved);
    Ok(ItemInfo { id, protection_index, item_type, item_name: lossy_string(name.as_slice()) })
}

/// Parses an `iinf` box's data: a full-box header of version 0, an entry
/// count, then that many `infe` boxes of version 2, each holding an item id,
/// a protection index, an item type and a NUL-terminated name, and consumed
/// exactly.
pub fn parse_iinf(from: &mut ByteReader) -> (r: Result<Vec<ItemInfo>, Error>)
    requires
        old(from).wf(),
    ensures
        old(from).kept(final(from)),
        match iinf_spec(old(from).bytes(), old(from).pos(), old(from).end()) {
            Ok((s, q)) => r is Ok && r->Ok_0@.map(|i: int, info: ItemInfo| info_view(info)) == s
                && old(from).moved_on(final(from)) && final(from).pos() == q,
            Err(e) => r == Err::<Vec<ItemInfo>, Error>(e),
        },
{
    let extended = read_full_box_header(from)?;
    if extended.version != 0 {
        return Err(Error::Version);
    }
    let entry_count = from.read_u16()?;

    let ghost d = from.bytes();
    let ghost end = from.end();
    let mut entries: Vec<ItemInfo> = Vec::new();
    let mut n: u16 = 0;
    while n < entry_count
        invariant
            old(from).moved_on(from),
            d == old(from).bytes(),
            end == old(from).end(),
            n <= entry_count,
            iinf_spec(d, old(from).pos(), end) == match infe_entries_spec(
                d,
                from.pos(),
                end,
                (entry_count - n) as nat,
            ) {
                Err(e) => Err(e),
                Ok((rest, q)) => Ok((entries@.map(|i: int, info: ItemInfo| info_view(info)) + rest, q)),
            },
        decreases entry_count - n,
    {
        let ghost before = entries@;
        let info = read_infe(from)?;
        let ghost v = info_view(info);
        entries.push(info);
        n = n + 1;
        proof {
            assert(entries@.map(|i: int, info: ItemInfo| info_view(info)) =~= before.map(
                |i: int, info: ItemInfo| info_view(info),
            ).push(v));
            assert forall|rest: Seq<(u16, u16, u32, Seq<char>)>| #[trigger] (seq![v] + rest) == seq![v]
                + rest implies before.map(|i: int, info: ItemInfo| info_view(info)) + (seq![v] + rest)
                == entries@.map(|i: int, info: ItemInfo| info_view(info)) + rest by {
                assert(before.map(|i: int, info: ItemInfo| info_view(info)) + (seq![v] + rest)
                    =~= entries@.map(|i: int, info: ItemInfo| info_view(info)) + rest);
            }
        }
    }
    proof {
        assert(entries@.map(|i: int, info: ItemInfo| info_view(info)) + Seq::<
            (u16, u16, u32, Seq<char>),
        >::empty() =~= entries@.map(|i: int, info: ItemInfo| info_view(info)));
    }
    Ok(entries)
}

/// What a top-level box held, as far as this reader looks.
#[derive(Debug, Clone)]
pub enum TopLevelBox {
    FileType(FileType),
    Meta(RawMeta),
    Other,
}

/// Whether the `ftyp` box whose data runs from `q` to `e` names `heic` as
/// its major brand or as one of its compatible brands.
pub open spec fn ftyp_is_heif(d: Seq<u8>, q: int, e: int) -> bool {
    fourcc_at(d, q).0 == HEIC || exists|i: int|
        0 <= i < (e - q - 8) / 4 && #[trigger] fourcc_at(d, q + 8 + 4 * i).0 == HEIC
}

/// The header of the top-level box at `p` and where the box ends, when its
/// header reads, it fits before `end`, and an `ftyp` or `meta` box's data
/// parses; or the first error.
pub open spec fn top_box_spec(d: Seq<u8>, p: int, end: int) -> Result<(BoxHeader, int), Error> {
    match header_spec(d, p, end) {
        Err(e) => Err(e),
        Ok((h, q)) => if h.size - h.offset > end - q {
            Err(Error::Eof)
        } else if h.size < 8 {
            Err(Error::Structure)
        } else {
            let ce = p + h.size;
            if h.box_type.0 == FTYP {
                if ce - q < 8 {
                    Err(Error::Eof)
                } else if (ce - q - 8) % 4 != 0 {
                    Err(Error::Structure)
                } else {
                    Ok((h, ce))
                }
            } else if h.box_type.0 == META {
                match meta_spec(d, q, ce) {
                    Err(e) => Err(e),
                    Ok(_) => Ok((h, ce)),
                }
            } else {
                Ok((h, ce))
            }
        },
    }
}

/// Reads one top-level box whole: `ftyp` and `meta` are parsed, any other
/// box is passed over. On success the cursor has moved by exactly the size
/// that the box's header declares.
pub fn read_top_level_box(from: &mut ByteReader) -> (r: Result<(BoxHeader, TopLevelBox), Error>)
    requires
        old(from).wf(),
    ensures
        old(from).kept(final(from)),
        match top_box_spec(old(from).bytes(), old(from).pos(), old(from).end()) {
            Ok((h, e)) => {
                &&& r is Ok
                &&& r->Ok_0.0 == h
                &&& h.wf()
                &&& old(from).moved_on(final(from))
                &&& final(from).pos() == e
                &&& e == old(from).pos() + h.size
                &&& (r->Ok_0.1 is Meta <==> h.box_type.0 == META)
                &&& (r->Ok_0.1 is FileType <==> h.box_type.0 == FTYP)
                &&& (r->Ok_0.1 is Meta ==> meta_holds(
                    r->Ok_0.1->Meta_0,
                    old(from).bytes(),
                    old(from).pos() + h.offset,
                    e,
                ))
                &&& (r->Ok_0.1 is FileType ==> (r->Ok_0.1->FileType_0.spec_is_heif()
                    <==> ftyp_is_heif(old(from).bytes(), old(from).pos() + h.offset, e)))
            },
            Err(e) => r == Err::<(BoxHeader, TopLevelBox), Error>(e),
        },
{
    let header = read_header(from)?;
    let saved = from.narrow(header.data_size())?;
    let t = header.box_type.0;
    let ghost d = from.bytes();
    let ghost q = from.pos();
    let ghost ce = from.end();
    let contents = if t == FTYP {
        let file_type = parse_ftyp(from)?;
        proof {
            if file_type.spec_is_heif() && file_type.major_brand.0 != HEIC {
                let i = choose|i: int|
                    0 <= i < file_type.brands@.len() && #[trigger] file_type.brands@[i].0 == HEIC;
                assert(fourcc_at(d, q + 8 + 4 * i).0 == HEIC);
            }
            if ftyp_is_heif(d, q, ce) && fourcc_at(d, q).0 != HEIC {
                let i = choose|i: int|
                    0 <= i < (ce - q - 8) / 4 && #[trigger] fourcc_at(d, q + 8 + 4 * i).0 == HEIC;
                assert(file_type.brands@[i].0 == HEIC);
            }
        }
        TopLevelBox::FileType(file_type)
    } else if t == META {
        TopLevelBox::Meta(parse(from)?)
    } else {
        skip(from)?;
        TopLevelBox::Other
    };
    if from.limit() != 0 {
        return Err(Error::Structure);
    }
    from.restore(saved);
    Ok((header, contents))
}

/// Where the data of the one `meta` box of a file starts and ends, reading
/// its top-level boxes from `p` to `end`, having seen an `ftyp` box (`heif`)
/// and a `meta` box (`found`) so far: every box must read (see
/// `top_box_spec`), every `ftyp` box must name `heic` (else
/// `Error::Unsupported`), a second `meta` box is `Error::Structure`, and at
/// the end a missing `ftyp` box is `Error::Unsupported` and a missing `meta`
/// box `Error::NotFound`.
pub open spec fn load_spec(d: Seq<u8>, p: int, end: int, heif: bool, found: Option<(int, int)>) -> Result<
    (int, int),
    Error,
>
    decreases end - p,
{
    if p >= end {
        if !heif {
            Err(Error::Unsupported)
        } else {
            match found {
                Some(span) => Ok(span),
                None => Err(Error::NotFound),
            }
        }
    } else {
        match top_box_spec(d, p, end) {
            Err(e) => Err(e),
            Ok((h, e)) => if e <= p {
                Err(Error::Structure)
            } else {
                let q = p + h.offset;
                if h.box_type.0 == FTYP && !ftyp_is_heif(d, q, e) {
                    Err(Error::Unsupported)
                } else if h.box_type.0 == META && found is Some {
                    Err(Error::Structure)
                } else {
                    load_spec(
                        d,
                        e,
                        end,
                        heif || h.box_type.0 == FTYP,
                        if h.box_type.0 == META {
                            Some((q, e))
                        } else {
                            found
                        },
                    )
                }
            },
        }
    }
}

/// Whether `raw` is what the one `meta` box of the file `d` holds.
pub open spec fn meta_of_file(d: Seq<u8>, raw: RawMeta) -> bool {
    match load_spec(d, 0, d.len() as int, false, None) {
        Ok((q, e)) => meta_holds(raw, d, q, e),
        Err(_) => false,
    }
}

/// Reads a whole file's top-level boxes and returns what its `meta` box
/// holds. The file must carry an `ftyp` box whose brands make it HEIF, and
/// exactly one `meta` box.
pub fn load_meta(data: &[u8]) -> (r: Result<RawMeta, Error>)
    ensures
        match load_spec(data@, 0, data@.len() as int, false, None) {
            Ok(_) => r is Ok && meta_of_file(data@, r->Ok_0),
            Err(e) => r == Err::<RawMeta, Error>(e),
        },
{
    let mut from = ByteReader::new(data);
    let mut heif = false;
    let mut found: Option<RawMeta> = None;
    let ghost mut span: Option<(int, int)> = None;
    while from.limit() != 0
        invariant
            from.wf(),
            from.bytes() == data@,
            from.end() == data@.len(),
            load_spec(data@, 0, data@.len() as int, false, None) == load_spec(
                data@,
                from.pos(),
                data@.len() as int,
                heif,
                span,
            ),
            found is Some <==> span is Some,
            found is Some ==> meta_holds(found->Some_0, data@, span->Some_0.0, span->Some_0.1),
        decreases from.left(),
    {
        let ghost p = from.pos();
        let (header, contents) = read_top_level_box(&mut from)?;
        match contents {
            TopLevelBox::FileType(file_type) => {
                if !file_type.is_heif() {
                    return Err(Error::Unsupported);
                }
                heif = true;
            },
            TopLevelBox::Meta(meta) => {
                if found.is_some() {
                    return Err(Error::Structure);
                }
                proof {
                    span = Some((p + header.offset, p + header.size));
                }
                found = Some(meta);
            },
            TopLevelBox::Other => {},
        }
    }
    if !heif {
        return Err(Error::Unsupported);
    }
    match found {
        Some(meta) => Ok(meta),
        None => Err(Error::NotFound),
    }
}

} // verus!
