use vstd::prelude::*;

use crate::error::Error;
use crate::mpeg::meta::utf8_lossy;

pub mod iprp;
pub mod meta;

verus! {

pub const FTYP: u32 = 0x66747970;

pub const HDLR: u32 = 0x68646c72;

pub const HEIC: u32 = 0x68656963;

pub const HVC1: u32 = 0x68766331;

pub const HVCC: u32 = 0x68766343;

pub const IINF: u32 = 0x69696e66;

pub const ILOC: u32 = 0x696c6f63;

pub const INFE: u32 = 0x696e6665;

pub const IPCO: u32 = 0x6970636f;

pub const IPMA: u32 = 0x69706d61;

pub const IPRP: u32 = 0x69707270;

pub const ISPE: u32 = 0x69737065;

pub const META: u32 = 0x6d657461;

pub const MDAT: u32 = 0x6d646174;

pub const MOOV: u32 = 0x6d6f6f76;

pub const PITM: u32 = 0x7069746d;

/// The value of a byte string read as a big-endian unsigned number.
pub open spec fn be_value(s: Seq<u8>) -> nat
    decreases s.len(),
{
    if s.len() == 0 {
        0
    } else {
        be_value(s.drop_last()) * 256 + s.last() as nat
    }
}

/// The big-endian number in the `n` bytes of `d` from offset `p`.
pub open spec fn be_at(d: Seq<u8>, p: int, n: int) -> nat {
    be_value(d.subrange(p, p + n))
}

/// Relies on byteorder's `BigEndian::read_u16`: the two bytes at `at`, most
/// significant first.
#[verifier::external_body]
fn be_u16(b: &[u8], at: usize) -> (r: u16)
    requires
        at + 2 <= b@.len(),
    ensures
        r as nat == be_at(b@, at as int, 2),
{
    <byteorder::BigEndian as byteorder::ByteOrder>::read_u16(&b[at..])
}

/// Relies on byteorder's `BigEndian::read_u32`: the four bytes at `at`, most
/// significant first.
#[verifier::external_body]
fn be_u32(b: &[u8], at: usize) -> (r: u32)
    requires
        at + 4 <= b@.len(),
    ensures
        r as nat == be_at(b@, at as int, 4),
{
    <byteorder::BigEndian as byteorder::ByteOrder>::read_u32(&b[at..])
}

/// Relies on byteorder's `BigEndian::read_u64`: the eight bytes at `at`, most
/// significant first.
#[verifier::external_body]
fn be_u64(b: &[u8], at: usize) -> (r: u64)
    requires
        at + 8 <= b@.len(),
    ensures
        r as nat == be_at(b@, at as int, 8),
{
    <byteorder::BigEndian as byteorder::ByteOrder>::read_u64(&b[at..])
}

/// A cursor over a byte string with a movable end: reads past the end fail
/// with `Error::Eof` and leave the cursor where it was. The end plays the role
/// of the declared size of the box being parsed.
pub struct ByteReader<'a> {
    data: &'a [u8],
    pos: usize,
    end: usize,
}

impl<'a> ByteReader<'a> {
    /// The whole byte string.
    pub closed spec fn bytes(&self) -> Seq<u8> {
        self.data@
    }

    /// The offset of the next byte to be read.
    pub closed spec fn pos(&self) -> int {
        self.pos as int
    }

    /// The offset that reads may not pass.
    pub closed spec fn end(&self) -> int {
        self.end as int
    }

    pub open spec fn wf(&self) -> bool {
        0 <= self.pos() <= self.end() <= self.bytes().len()
    }

    /// How many bytes are left before the end.
    pub open spec fn left(&self) -> int {
        self.end() - self.pos()
    }

    /// `next` reads the same bytes as `self` up to the same end, and stands
    /// no earlier.
    pub open spec fn moved_on(&self, next: &ByteReader) -> bool {
        &&& next.wf()
        &&& next.bytes() == self.bytes()
        &&& next.end() == self.end()
        &&& self.pos() <= next.pos()
    }

    /// `next` reads the same bytes as `self`; its cursor and end may be
    /// anywhere.
    pub open spec fn kept(&self, next: &ByteReader) -> bool {
        &&& next.wf()
        &&& next.bytes() == self.bytes()
    }

    pub fn new(data: &'a [u8]) -> (r: ByteReader<'a>)
        ensures
            r.wf(),
            r.bytes() == data@,
            r.pos() == 0,
            r.end() == data@.len(),
    {
        ByteReader { data, pos: 0, end: data.len() }
    }

    /// The offset of the next byte to be read.
    pub fn position(&self) -> (r: usize)
        ensures
            r == self.pos(),
    {
        self.pos
    }

    /// How many bytes are left before the end.
    pub fn limit(&self) -> (r: usize)
        requires
            self.wf(),
        ensures
            r == self.left(),
    {
        self.end - self.pos
    }

    /// Narrows the end to `n` bytes past the cursor, and returns the end it
    /// had, for `restore`.
    pub fn narrow(&mut self, n: u64) -> (r: Result<usize, Error>)
        requires
            old(self).wf(),
        ensures
            final(self).wf(),
            final(self).bytes() == old(self).bytes(),
            final(self).pos() == old(self).pos(),
            n <= old(self).left() ==> r == Ok::<usize, Error>(old(self).end() as usize)
                && final(self).end() == old(self).pos() + n,
            n > old(self).left() ==> r == Err::<usize, Error>(Error::Eof) && final(self).end()
                == old(self).end(),
    {
        if n > (self.end - self.pos) as u64 {
            return Err(Error::Eof);
        }
        let saved = self.end;
        self.end = self.pos + n as usize;
        Ok(saved)
    }

    /// Puts back an end that `narrow` returned.
    pub fn restore(&mut self, end: usize)
        requires
            old(self).wf(),
            old(self).pos() <= end <= old(self).bytes().len(),
        ensures
            final(self).wf(),
            final(self).bytes() == old(self).bytes(),
            final(self).pos() == old(self).pos(),
            final(self).end() == end,
    {
        self.end = end;
    }

    pub fn read_u8(&mut self) -> (r: Result<u8, Error>)
        requires
            old(self).wf(),
        ensures
            old(self).moved_on(final(self)),
            old(self).left() >= 1 ==> r == Ok::<u8, Error>(old(self).bytes()[old(self).pos()])
                && final(self).pos() == old(self).pos() + 1,
            old(self).left() < 1 ==> r == Err::<u8, Error>(Error::Eof) && final(self).pos()
                == old(self).pos(),
    {
        if self.end - self.pos < 1 {
            return Err(Error::Eof);
        }
        let b = self.data[self.pos];
        self.pos = self.pos + 1;
        Ok(b)
    }

    pub fn read_u16(&mut self) -> (r: Result<u16, Error>)
        requires
            old(self).wf(),
        ensures
            old(self).moved_on(final(self)),
            old(self).left() >= 2 ==> r is Ok && r->Ok_0 as nat == be_at(
                old(self).bytes(),
                old(self).pos(),
                2,
            ) && final(self).pos() == old(self).pos() + 2,
            old(self).left() < 2 ==> r == Err::<u16, Error>(Error::Eof) && final(self).pos()
                == old(self).pos(),
    {
        if self.end - self.pos < 2 {
            return Err(Error::Eof);
        }
        let v = be_u16(self.data, self.pos);
        self.pos = self.pos + 2;
        Ok(v)
    }

    pub fn read_u32(&mut self) -> (r: Result<u32, Error>)
        requires
            old(self).wf(),
        ensures
            old(self).moved_on(final(self)),
            old(self).left() >= 4 ==> r is Ok && r->Ok_0 as nat == be_at(
                old(self).bytes(),
                old(self).pos(),
                4,
            ) && final(self).pos() == old(self).pos() + 4,
            old(self).left() < 4 ==> r == Err::<u32, Error>(Error::Eof) && final(self).pos()
                == old(self).pos(),
    {
        if self.end - self.pos < 4 {
            return Err(Error::Eof);
        }
        let v = be_u32(self.data, self.pos);
        self.pos = self.pos + 4;
        Ok(v)
    }

    pub fn read_u64(&mut self) -> (r: Result<u64, Error>)
        requires
            old(self).wf(),
        ensures
            old(self).moved_on(final(self)),
            old(self).left() >= 8 ==> r is Ok && r->Ok_0 as nat == be_at(
                old(self).bytes(),
                old(self).pos(),
                8,
            ) && final(self).pos() == old(self).pos() + 8,
            old(self).left() < 8 ==> r == Err::<u64, Error>(Error::Eof) && final(self).pos()
                == old(self).pos(),
    {
        if self.end - self.pos < 8 {
            return Err(Error::Eof);
        }
        let v = be_u64(self.data, self.pos);
        self.pos = self.pos + 8;
        Ok(v)
    }

    /// Copies out the next `n` bytes.
    pub fn read_bytes(&mut self, n: u64) -> (r: Result<Vec<u8>, Error>)
        requires
            old(self).wf(),
        ensures
            old(self).moved_on(final(self)),
            n <= old(self).left() ==> r is Ok && r->Ok_0@ == old(self).bytes().subrange(
                old(self).pos(),
                old(self).pos() + n,
            ) && final(self).pos() == old(self).pos() + n,
            n > old(self).left() ==> r == Err::<Vec<u8>, Error>(Error::Eof) && final(self).pos()
                == old(self).pos(),
    {
        if n > (self.end - self.pos) as u64 {
            return Err(Error::Eof);
        }
        let n = n as usize;
        let start = self.pos;
        let mut out: Vec<u8> = Vec::with_capacity(n);
        let mut i: usize = 0;
        while i < n
            invariant
                self.wf(),
                self.bytes() == old(self).bytes(),
                self.end() == old(self).end(),
                start == old(self).pos(),
                start + n <= self.end(),
                i <= n,
                self.pos() == start + i,
                out@ == self.bytes().subrange(start as int, start + i),
            decreases n - i,
        {
            out.push(self.data[self.pos]);
            self.pos = self.pos + 1;
            i = i + 1;
            assert(out@ == self.bytes().subrange(start as int, start + i));
        }
        Ok(out)
    }

    /// Passes over the next `n` bytes.
    pub fn skip(&mut self, n: u64) -> (r: Result<(), Error>)
        requires
            old(self).wf(),
        ensures
            old(self).moved_on(final(self)),
            n <= old(self).left() ==> r == Ok::<(), Error>(()) && final(self).pos() == old(
                self,
            ).pos() + n,
            n > old(self).left() ==> r == Err::<(), Error>(Error::Eof) && final(self).pos()
                == old(self).pos(),
    {
        if n > (self.end - self.pos) as u64 {
            return Err(Error::Eof);
        }
        self.pos = self.pos + n as usize;
        Ok(())
    }
}

/// A four-character code: four bytes, usually ASCII, packed big-endian into a
/// `u32`. Two codes are equal when their integers are.
#[derive(Debug, Clone, Copy, PartialEq, Eq, Hash, Structural)]
pub struct FourCc(pub u32);

/// Names the text that std's `Debug` formatting makes of a string: the
/// string in double quotes, with characters escaped.
pub uninterp spec fn debug_of(s: Seq<char>) -> Seq<char>;

/// Relies on std's `Debug` for `str`: the quoted, escaped form of the
/// string; the result depends on the characters alone.
#[verifier::external_body]
fn debug_string(s: &String) -> (r: String)
    ensures
        r@ == debug_of(s@),
{
    format!("{:?}", s)
}

impl FourCc {
    /// The four bytes of the code, the most significant first.
    pub open spec fn spec_bytes(self) -> Seq<u8> {
        seq![(self.0 >> 24u32) as u8, (self.0 >> 16u32) as u8, (self.0 >> 8u32) as u8, self.0 as u8]
    }

    /// Packs four bytes, the first one most significant.
    pub fn from_ascii(b: &[u8]) -> (r: FourCc)
        requires
            b@.len() == 4,
        ensures
            r.0 as nat == be_value(b@),
    {
        assert(b@.subrange(0, 4) == b@);
        FourCc(be_u32(b, 0))
    }

    /// The four bytes of the code, the most significant first.
    pub fn to_bytes(&self) -> (r: [u8; 4])
        ensures
            r@ == self.spec_bytes(),
    {
        [(self.0 >> 24u32) as u8, (self.0 >> 16u32) as u8, (self.0 >> 8u32) as u8, self.0 as u8]
    }

    /// The code as a debug listing shows it: its four bytes decoded as
    /// UTF-8, invalid sequences replaced, then quoted and escaped.
    pub fn debug_repr(&self) -> (r: String)
        ensures
            r@ == debug_of(utf8_lossy(self.spec_bytes())),
    {
        let bytes = self.to_bytes();
        let text = crate::mpeg::meta::lossy_string(&bytes);
        debug_string(&text)
    }
}

/// The size and type that open every box. `size` counts the whole box,
/// `offset` the header itself (8 bytes, or 16 with a 64-bit size).
#[derive(Debug, Clone, Copy, PartialEq, Eq, Structural)]
pub struct BoxHeader {
    pub box_type: FourCc,
    pub size: u64,
    pub offset: u8,
}

impl BoxHeader {
    pub open spec fn wf(&self) -> bool {
        &&& (self.offset == 8 || self.offset == 16)
        &&& self.offset <= self.size
    }

    /// How many bytes of the box follow its header.
    pub fn data_size(&self) -> (r: u64)
        requires
            self.wf(),
        ensures
            r == self.size - self.offset,
    {
        self.size - self.offset as u64
    }
}

/// The box header at offset `p` of `d`, with reads limited to `end`, and the
/// offset just past it; or why there is none.
pub open spec fn header_spec(d: Seq<u8>, p: int, end: int) -> Result<(BoxHeader, int), Error> {
    if end - p < 8 {
        Err(Error::Eof)
    } else {
        let size_low = be_at(d, p, 4);
        let box_type = FourCc(be_at(d, p + 4, 4) as u32);
        if size_low == 1 {
            if end - p < 16 {
                Err(Error::Eof)
            } else if be_at(d, p + 8, 8) < 16 {
                Err(Error::Structure)
            } else {
                Ok((BoxHeader { box_type, size: be_at(d, p + 8, 8) as u64, offset: 16 }, p + 16))
            }
        } else if size_low < 8 {
            Err(Error::Structure)
        } else {
            Ok((BoxHeader { box_type, size: size_low as u64, offset: 8 }, p + 8))
        }
    }
}

/// Reads a box header: a 32-bit size and a type; a size of 1 announces a
/// 64-bit size after the type, which must be at least 16. Sizes 0 and 2 to 7
/// are refused.
pub fn read_header(from: &mut ByteReader) -> (r: Result<BoxHeader, Error>)
    requires
        old(from).wf(),
    ensures
        old(from).moved_on(final(from)),
        match header_spec(old(from).bytes(), old(from).pos(), old(from).end()) {
            Ok((h, p)) => r == Ok::<BoxHeader, Error>(h) && h.wf() && final(from).pos() == p,
            Err(e) => r == Err::<BoxHeader, Error>(e),
        },
{
    if from.limit() < 8 {
        return Err(Error::Eof);
    }
    let size_low = from.read_u32()?;
    let box_type = FourCc(from.read_u32()?);
    if size_low == 1 {
        let size_high = from.read_u64()?;
        if size_high < 16 {
            return Err(Error::Structure);
        }
        Ok(BoxHeader { box_type, size: size_high, offset: 16 })
    } else if size_low < 8 {
        Err(Error::Structure)
    } else {
        Ok(BoxHeader { box_type, size: size_low as u64, offset: 8 })
    }
}

/// The version and flags of a full box.
#[derive(Debug, Clone, Copy, PartialEq, Eq, Structural)]
pub struct ExtendedHeader {
    pub version: u8,
    pub flags: u32,
}

/// Reads the 32 bits that follow the header of a full box: the version in the
/// top 8 bits, the flags in the low 24.
pub fn read_full_box_header(from: &mut ByteReader) -> (r: Result<ExtendedHeader, Error>)
    requires
        old(from).wf(),
    ensures
        old(from).moved_on(final(from)),
        old(from).left() >= 4 ==> r == Ok::<ExtendedHeader, Error>(
            ExtendedHeader {
                version: (be_at(old(from).bytes(), old(from).pos(), 4) / 0x100_0000) as u8,
                flags: (be_at(old(from).bytes(), old(from).pos(), 4) % 0x100_0000) as u32,
            },
        ) && final(from).pos() == old(from).pos() + 4,
        old(from).left() >= 4 ==> be_at(old(from).bytes(), old(from).pos(), 4) < 0x1_0000_0000,
        old(from).left() < 4 ==> r == Err::<ExtendedHeader, Error>(Error::Eof),
{
    let data = from.read_u32()?;
    assert(data >> 24u32 == data / 0x100_0000) by (bit_vector);
    assert(data & 0xff_ffffu32 == data % 0x100_0000) by (bit_vector);
    Ok(ExtendedHeader { version: (data >> 24u32) as u8, flags: data & 0x00ff_ffff })
}

/// Reads one byte as two 4-bit numbers, the high one first.
pub fn read_u4_pair(from: &mut ByteReader) -> (r: Result<(u8, u8), Error>)
    requires
        old(from).wf(),
    ensures
        old(from).moved_on(final(from)),
        old(from).left() >= 1 ==> r == Ok::<(u8, u8), Error>(
            (
                old(from).bytes()[old(from).pos()] / 16,
                old(from).bytes()[old(from).pos()] % 16,
            ),
        ) && final(from).pos() == old(from).pos() + 1,
        old(from).left() < 1 ==> r == Err::<(u8, u8), Error>(Error::Eof),
{
    let byte = from.read_u8()?;
    assert((byte >> 4u8) & 0xfu8 == byte / 16) by (bit_vector);
    assert(byte & 0xfu8 == byte % 16) by (bit_vector);
    Ok(((byte >> 4u8) & 0xf, byte & 0xf))
}

/// What `read_value_of_size` returns for a field of `size` bytes at `p`, and
/// the offset past it.
pub open spec fn value_of_size_spec(d: Seq<u8>, p: int, end: int, size: u8) -> Result<
    (u64, int),
    Error,
> {
    if size == 0 {
        Ok((0, p))
    } else if size != 4 && size != 8 {
        Err(Error::Unsupported)
    } else if end - p < size {
        Err(Error::Eof)
    } else {
        Ok((be_at(d, p, size as int) as u64, p + size))
    }
}

/// Reads a big-endian field of 0, 4 or 8 bytes; a field of no bytes is zero.
pub fn read_value_of_size(from: &mut ByteReader, size: u8) -> (r: Result<u64, Error>)
    requires
        old(from).wf(),
    ensures
        old(from).moved_on(final(from)),
        match value_of_size_spec(old(from).bytes(), old(from).pos(), old(from).end(), size) {
            Ok((v, p)) => r == Ok::<u64, Error>(v) && final(from).pos() == p,
            Err(e) => r == Err::<u64, Error>(e),
        },
{
    match size {
        0 => Ok(0),
        4 => Ok(from.read_u32()? as u64),
        8 => from.read_u64(),
        _ => Err(Error::Unsupported),
    }
}

/// Passes over the data of a box whose header was just read.
pub fn skip_box(from: &mut ByteReader, header: &BoxHeader) -> (r: Result<(), Error>)
    requires
        old(from).wf(),
        header.wf(),
    ensures
        old(from).moved_on(final(from)),
        header.size - header.offset <= old(from).left() ==> r == Ok::<(), Error>(())
            && final(from).pos() == old(from).pos() + header.size - header.offset,
        header.size - header.offset > old(from).left() ==> r == Err::<(), Error>(Error::Eof),
{
    from.skip(header.data_size())
}

/// Passes over everything up to the end.
pub fn skip(from: &mut ByteReader) -> (r: Result<(), Error>)
    requires
        old(from).wf(),
    ensures
        old(from).moved_on(final(from)),
        r == Ok::<(), Error>(()),
        final(from).pos() == old(from).end(),
{
    let n = from.limit();
    from.skip(n as u64)
}

/// The contents of an `ftyp` box.
#[derive(Debug, Clone)]
pub struct FileType {
    pub major_brand: FourCc,
    pub minor_version: u32,
    pub brands: Vec<FourCc>,
}

/// The code in the four bytes of `d` at `p`.
pub open spec fn fourcc_at(d: Seq<u8>, p: int) -> FourCc {
    FourCc(be_at(d, p, 4) as u32)
}

impl FileType {
    /// The file is HEIF when `heic` is the major brand or one of the
    /// compatible brands.
    pub open spec fn spec_is_heif(&self) -> bool {
        self.major_brand.0 == HEIC || exists|i: int|
            0 <= i < self.brands@.len() && #[trigger] self.brands@[i].0 == HEIC
    }

    pub fn is_heif(&self) -> (r: bool)
        ensures
            r == self.spec_is_heif(),
    {
        if self.major_brand.0 == HEIC {
            return true;
        }
        let mut i: usize = 0;
        while i < self.brands.len()
            invariant
                i <= self.brands@.len(),
                self.major_brand.0 != HEIC,
                forall|j: int| 0 <= j < i ==> #[trigger] self.brands@[j].0 != HEIC,
            decreases self.brands@.len() - i,
        {
            if self.brands[i].0 == HEIC {
                return true;
            }
            i = i + 1;
        }
        false
    }
}

/// Parses an `ftyp` box's data, which runs to the end: the major brand, the
/// minor version, then compatible brands of four bytes each, which must fill
/// the rest exactly.
pub fn parse_ftyp(from: &mut ByteReader) -> (r: Result<FileType, Error>)
    requires
        old(from).wf(),
    ensures
        old(from).moved_on(final(from)),
        ({
            let d = old(from).bytes();
            let p = old(from).pos();
            let n = old(from).left();
            if n < 8 {
                r == Err::<FileType, Error>(Error::Eof)
            } else if (n - 8) % 4 != 0 {
                r == Err::<FileType, Error>(Error::Structure)
            } else {
                &&& r is Ok
                &&& r->Ok_0.major_brand == fourcc_at(d, p)
                &&& r->Ok_0.minor_version == be_at(d, p + 4, 4)
                &&& r->Ok_0.brands@.len() == (n - 8) / 4
                &&& forall|i: int|
                    0 <= i < r->Ok_0.brands@.len() ==> #[trigger] r->Ok_0.brands@[i] == fourcc_at(
                        d,
                        p + 8 + 4 * i,
                    )
                &&& final(from).pos() == old(from).end()
            }
        }),
{
    if from.limit() < 8 {
        return Err(Error::Eof);
    }
    let major_brand = FourCc(from.read_u32()?);
    let minor_version = from.read_u32()?;
    let remaining = from.limit();
    if remaining % 4 != 0 {
        return Err(Error::Structure);
    }
    let count = remaining / 4;
    let ghost start = from.pos();
    let mut brands: Vec<FourCc> = Vec::with_capacity(count);
    let mut i: usize = 0;
    while i < count
        invariant
            old(from).moved_on(from),
            from.bytes() == old(from).bytes(),
            start == old(from).pos() + 8,
            count * 4 == old(from).end() - start,
            i <= count,
            from.pos() == start + 4 * i,
            brands@.len() == i,
            forall|j: int|
                0 <= j < i ==> #[trigger] brands@[j] == fourcc_at(from.bytes(), start + 4 * j),
        decreases count - i,
    {
        let b = from.read_u32()?;
        brands.push(FourCc(b));
        i = i + 1;
    }
    Ok(FileType { major_brand, minor_version, brands })
}

/// One byte range of an item: `offset` counts from the item's base offset.
#[derive(Debug, Clone, Copy, PartialEq, Eq, Structural)]
pub struct Extent {
    pub index: u64,
    pub offset: u64,
    pub length: u64,
}

/// Where an item's bytes lie in the file (an `iloc` entry).
#[derive(Debug, Clone)]
pub struct Item {
    pub id: u32,
    pub data_reference_index: u16,
    pub base_offset: u64,
    pub extents: Vec<Extent>,
}

/// What an `infe` box says of an item.
#[derive(Debug, Clone)]
pub struct ItemInfo {
    pub id: u16,
    pub protection_index: u16,
    pub item_type: FourCc,
    pub item_name: String,
}

} // verus!
