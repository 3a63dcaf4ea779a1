use vstd::arithmetic::power2::*;
use vstd::bits::*;
use vstd::prelude::*;

use crate::bit::bit_at;
use crate::bit::bits_value;
use crate::bit::lemma_bits_value_bound;
use crate::bit::BitReader;
use crate::bit::Bits;
use crate::error::Error;
use crate::hevc::nal::un_nal;
use crate::hevc::nal::unescape;
use crate::hevc::pps::PicParamSet;
use crate::hevc::sps::SeqParamSet;
use crate::hevc::ss::SliceSegmentHeader;
use crate::mpeg::ByteReader;

pub mod cabac;
pub mod nal;
pub mod pps;
pub mod sps;
pub mod ss;
pub mod vps;

verus! {

pub const NAL_BLA_W_LP: u8 = 16;

pub const NAL_BLA_W_RADL: u8 = 17;

pub const NAL_BLA_N_LP: u8 = 18;

pub const NAL_IDR_W_RADL: u8 = 19;

pub const NAL_IDR_N_LP: u8 = 20;

pub const NAL_CRA_NUT: u8 = 21;

pub const NAL_RSV_IRAP_VCL22: u8 = 22;

pub const NAL_RSV_IRAP_VCL23: u8 = 23;

pub const NAL_VPS_NUT: u8 = 32;

pub const NAL_SPS_NUT: u8 = 33;

pub const NAL_PPS_NUT: u8 = 34;

/// Whether a NAL unit type is one of the intra random access point types.
pub open spec fn is_irap(t: u8) -> bool {
    NAL_BLA_W_LP <= t <= NAL_RSV_IRAP_VCL23
}

/// The two bytes that open every NAL unit, less the forbidden zero bit.
#[derive(Debug, Clone, Copy, PartialEq, Eq, Structural)]
pub struct NalUnitHeader {
    pub unit_type: u8,
    pub nuh_layer_id: u8,
    pub nuh_temporal_id_plus_1: u8,
}

/// The NAL unit header in the two bytes `d`, or why there is none: the
/// first bit must be zero.
pub open spec fn nal_unit_header_spec(d: Seq<u8>) -> Result<NalUnitHeader, Error> {
    if bit_at(d, 0) {
        Err(Error::Structure)
    } else {
        Ok(
            NalUnitHeader {
                unit_type: bits_value(d, 1, 6) as u8,
                nuh_layer_id: bits_value(d, 7, 6) as u8,
                nuh_temporal_id_plus_1: bits_value(d, 13, 3) as u8,
            },
        )
    }
}

/// Reads a NAL unit header: a zero bit, then the unit type (6 bits), the
/// layer id (6 bits) and the temporal id plus one (3 bits).
pub fn nal_unit_header(from: &mut ByteReader) -> (r: Result<NalUnitHeader, Error>)
    requires
        old(from).wf(),
    ensures
        old(from).moved_on(final(from)),
        old(from).left() < 2 ==> r == Err::<NalUnitHeader, Error>(Error::Eof),
        old(from).left() >= 2 ==> r == nal_unit_header_spec(
            old(from).bytes().subrange(old(from).pos(), old(from).pos() + 2),
        ) && final(from).pos() == old(from).pos() + 2,
{
    let mut bits = Bits::read_exact(from, 2)?;
    if bits.read_bool() {
        return Err(Error::Structure);
    }
    let unit_type = bits.read_u8(6);
    let nuh_layer_id = bits.read_u8(6);
    let nuh_temporal_id_plus_1 = bits.read_u8(3);
    Ok(NalUnitHeader { unit_type, nuh_layer_id, nuh_temporal_id_plus_1 })
}

/// Reading an unsigned Exp-Golomb code at bit `p` of `d` after `k` zero bits
/// have been seen: the value and the offset past the code, or why it fails.
/// More than 63 leading zeros are refused.
pub open spec fn uvlc_from(d: Seq<u8>, p: int, k: nat) -> Result<(nat, int), Error>
    decreases 64 - k,
{
    let q = p + k;
    if q >= 8 * d.len() {
        Err(Error::Eof)
    } else if bit_at(d, q) {
        if q + 1 + k > 8 * d.len() {
            Err(Error::Eof)
        } else {
            Ok(((pow2(k) + bits_value(d, q + 1, k) - 1) as nat, q + 1 + k))
        }
    } else if k >= 63 {
        Err(Error::Range)
    } else {
        uvlc_from(d, p, k + 1)
    }
}

/// The unsigned Exp-Golomb code at bit `p` of `d`: `k` zero bits, a one bit,
/// then `k` bits `b`, for the value `2^k + b - 1`.
pub open spec fn uvlc_spec(d: Seq<u8>, p: int) -> Result<(nat, int), Error> {
    uvlc_from(d, p, 0)
}

/// Reads an unsigned Exp-Golomb code, `ue(v)`.
pub fn read_uvlc(from: &mut BitReader) -> (r: Result<u64, Error>)
    requires
        old(from).wf(),
    ensures
        old(from).progressed(final(from)),
        match uvlc_spec(old(from).bytes(), old(from).pos()) {
            Ok((v, p)) => r == Ok::<u64, Error>(v as u64) && v < u64::MAX && final(from).pos()
                == p,
            Err(e) => r == Err::<u64, Error>(e),
        },
{
    let ghost d = from.bytes();
    let ghost p0 = from.pos();
    let mut leading_zeros: u8 = 0;
    loop
        invariant_except_break
            from.wf(),
            from.bytes() == d,
            d == old(from).bytes(),
            p0 == old(from).pos(),
            leading_zeros <= 63,
            from.pos() == p0 + leading_zeros,
            uvlc_spec(d, p0) == uvlc_from(d, p0, leading_zeros as nat),
        ensures
            from.wf(),
            from.bytes() == d,
            d == old(from).bytes(),
            p0 == old(from).pos(),
            leading_zeros <= 63,
            from.pos() == p0 + leading_zeros + 1,
            bit_at(d, p0 + leading_zeros),
            uvlc_spec(d, p0) == uvlc_from(d, p0, leading_zeros as nat),
        decreases 64 - leading_zeros,
    {
        let b = from.read_bool()?;
        if b {
            break;
        }
        if leading_zeros >= 63 {
            return Err(Error::Range);
        }
        leading_zeros = leading_zeros + 1;
    }
    let bits = from.read_u64(leading_zeros)?;
    proof {
        lemma_bits_value_bound(d, p0 + leading_zeros + 1, leading_zeros as nat);
        lemma_u64_pow2_no_overflow(leading_zeros as nat);
        lemma_u64_shl_is_mul(1, leading_zeros as u64);
        lemma_pow2_unfold(64);
        if leading_zeros < 63 {
            lemma_pow2_strictly_increases(leading_zeros as nat, 63);
        }
        lemma2_to64();
    }
    let high: u64 = 1u64 << (leading_zeros as u64);
    Ok(high - 1 + bits)
}

/// The signed value that an unsigned Exp-Golomb value `k` stands for:
/// `(-1)^(k+1) * ceil(k / 2)`.
pub open spec fn se_of(k: nat) -> int {
    if k % 2 == 1 {
        ((k + 1) / 2) as int
    } else {
        -((k / 2) as int)
    }
}

/// Reads a signed Exp-Golomb code, `se(v)`.
pub fn read_svlc(from: &mut BitReader) -> (r: Result<i64, Error>)
    requires
        old(from).wf(),
    ensures
        old(from).progressed(final(from)),
        match uvlc_spec(old(from).bytes(), old(from).pos()) {
            Ok((v, p)) => r is Ok && r->Ok_0 == se_of(v) && final(from).pos() == p,
            Err(e) => r == Err::<i64, Error>(e),
        },
{
    let k = read_uvlc(from)?;
    if k % 2 == 1 {
        Ok((k / 2 + 1) as i64)
    } else {
        Ok(-((k / 2) as i64))
    }
}

/// After the one bit at `q`, the zero bits up to the next byte boundary:
/// the offset of that boundary, or why they are not there.
pub open spec fn zeros_to_align(d: Seq<u8>, q: int) -> Result<int, Error>
    decreases 8 * d.len() - q,
{
    if q % 8 == 0 {
        Ok(q)
    } else if q >= 8 * d.len() {
        Err(Error::Eof)
    } else if bit_at(d, q) {
        Err(Error::Structure)
    } else {
        zeros_to_align(d, q + 1)
    }
}

/// RBSP trailing bits at bit `p` of `d`: a one bit, then zero bits to the
/// next byte boundary. The offset of that boundary, or why they are not there.
pub open spec fn trailing_bits_spec(d: Seq<u8>, p: int) -> Result<int, Error> {
    if p >= 8 * d.len() {
        Err(Error::Eof)
    } else if !bit_at(d, p) {
        Err(Error::Structure)
    } else {
        zeros_to_align(d, p + 1)
    }
}

/// Reads RBSP trailing bits; the same pattern ends a slice segment header
/// (`byte_alignment()`).
pub fn rbsp_trailing_bits(from: &mut BitReader) -> (r: Result<(), Error>)
    requires
        old(from).wf(),
    ensures
        old(from).progressed(final(from)),
        match trailing_bits_spec(old(from).bytes(), old(from).pos()) {
            Ok(q) => r == Ok::<(), Error>(()) && final(from).pos() == q,
            Err(e) => r == Err::<(), Error>(e),
        },
        r is Ok ==> final(from).pos() % 8 == 0,
{
    let ghost d = from.bytes();
    let ghost p0 = from.pos();
    if !from.read_bool()? {
        return Err(Error::Structure);
    }
    while !from.is_byte_aligned()
        invariant
            from.wf(),
            from.bytes() == d,
            d == old(from).bytes(),
            p0 < from.pos(),
            p0 == old(from).pos(),
            trailing_bits_spec(d, p0) == zeros_to_align(d, from.pos()),
        decreases from.remaining(),
    {
        if from.read_bool()? {
            return Err(Error::Structure);
        }
    }
    Ok(())
}

/// Decodes the first NAL unit of a length-prefixed picture bitstream far
/// enough to read its slice segment header: a 32-bit length, the NAL unit
/// header, which must be of a slice segment type (`BLA_W_LP` to `CRA_NUT`),
/// then the header from the unescaped rest of the data.
pub fn dump(data: &[u8], pps: &PicParamSet, sps: &SeqParamSet) -> (r: Result<
    (NalUnitHeader, SliceSegmentHeader),
    Error,
>)
    requires
        8 * data@.len() <= u64::MAX,
        pps.wf(),
        sps.wf(),
    ensures
        data@.len() < 6 ==> r == Err::<(NalUnitHeader, SliceSegmentHeader), Error>(Error::Eof),
        data@.len() >= 6 ==> match nal_unit_header_spec(data@.subrange(4, 6)) {
            Err(e) => r == Err::<(NalUnitHeader, SliceSegmentHeader), Error>(e),
            Ok(h) => if h.unit_type < NAL_BLA_W_LP || h.unit_type > NAL_CRA_NUT {
                r == Err::<(NalUnitHeader, SliceSegmentHeader), Error>(Error::Unsupported)
            } else {
                match ss::slice_segment_header_spec(
                    h.unit_type,
                    unescape(data@.subrange(6, data@.len() as int)),
                    0,
                    *pps,
                    *sps,
                ) {
                    Ok((f, _)) => r == Ok::<(NalUnitHeader, SliceSegmentHeader), Error>(
                        (h, SliceSegmentHeader { flags: f }),
                    ),
                    Err(e) => r == Err::<(NalUnitHeader, SliceSegmentHeader), Error>(e),
                }
            },
        },
{
    let mut from = ByteReader::new(data);
    if from.limit() < 6 {
        return Err(Error::Eof);
    }
    let _len = from.read_u32()?;
    let nal_unit_header = nal_unit_header(&mut from)?;
    if nal_unit_header.unit_type < NAL_BLA_W_LP || nal_unit_header.unit_type > NAL_CRA_NUT {
        return Err(Error::Unsupported);
    }
    let rest = from.limit();
    let v = from.read_bytes(rest as u64)?;
    let payload = un_nal(v.as_slice());
    let mut bits = BitReader::new(payload.as_slice());
    let header = ss::slice_segment_header(nal_unit_header.unit_type, &mut bits, pps, sps)?;
    Ok((nal_unit_header, header))
}

} // verus!
