use vstd::prelude::*;

use crate::bit::bit_at;
use crate::bit::bits_value;
use crate::bit::BitReader;
use crate::error::Error;
use crate::hevc::rbsp_trailing_bits;
use crate::hevc::read_svlc;
use crate::hevc::read_uvlc;
use crate::hevc::trailing_bits_spec;
use crate::hevc::uvlc_spec;

verus! {

pub const DEPENDENT_SLICE_SEGMENTS_ENABLED: u32 = 1 << 0;

pub const OUTPUT_FLAG_PRESENT: u32 = 1 << 1;

pub const SIGN_DATA_HIDING_ENABLED: u32 = 1 << 2;

pub const CABAC_INIT_PRESENT: u32 = 1 << 3;

pub const CONSTRAINED_INTRA_PRED: u32 = 1 << 4;

pub const TRANSFORM_SKIP_ENABLED: u32 = 1 << 5;

pub const CU_QP_DELTA_ENABLED: u32 = 1 << 6;

pub const PPS_SLICE_CHROMA_QP_OFFSETS_PRESENT: u32 = 1 << 7;

pub const WEIGHTED_PRED: u32 = 1 << 8;

pub const WEIGHTED_BIPRED: u32 = 1 << 9;

pub const TRANSQUANT_BYPASS_ENABLED: u32 = 1 << 10;

pub const TILES_ENABLED: u32 = 1 << 11;

pub const ENTROPY_CODING_SYNC_ENABLED: u32 = 1 << 12;

pub const PPS_LOOP_FILTER_ACROSS_SLICES_ENABLED: u32 = 1 << 13;

pub const DEBLOCKING_FILTER_CONTROL_PRESENT: u32 = 1 << 14;

pub const UNIFORM_SPACING: u32 = 1 << 15;

pub const LOOP_FILTER_ACROSS_TILES_ENABLED: u32 = 1 << 16;

pub const DEBLOCKING_FILTER_OVERRIDE_ENABLED: u32 = 1 << 17;

pub const PPS_DEBLOCKING_FILTER_DISABLED: u32 = 1 << 18;

pub const PPS_SCALING_LIST_DATA_PRESENT: u32 = 1 << 19;

pub const LISTS_MODIFICATION_PRESENT: u32 = 1 << 20;

pub const SLICE_SEGMENT_HEADER_EXTENSION_PRESENT: u32 = 1 << 21;

pub const PPS_EXTENSION: u32 = 1 << 22;

/// What a slice segment header needs of a picture parameter set. `flags`
/// holds the flag bits above.
#[derive(Debug, Clone, Copy, PartialEq, Eq, Structural)]
pub struct PicParamSet {
    pub pps_pic_parameter_set_id: u64,
    pub pps_seq_parameter_set_id: u64,
    pub num_extra_slice_header_bits: u8,
    pub num_ref_idx_l0_default_active_minus1: u64,
    pub num_ref_idx_l1_default_active_minus1: u64,
    pub flags: u32,
}

impl PicParamSet {
    /// The limits that a parsed set always meets.
    pub open spec fn wf(&self) -> bool {
        self.num_extra_slice_header_bits < 8
    }

    /// Whether every bit of `flag` is set.
    pub fn contains(&self, flag: u32) -> (r: bool)
        ensures
            r == (self.flags & flag == flag),
    {
        self.flags & flag == flag
    }
}

/// Where `n` Exp-Golomb codes in a row, from bit `p`, end.
pub open spec fn skip_uvlcs(d: Seq<u8>, p: int, n: nat) -> Result<int, Error>
    decreases n,
{
    if n == 0 {
        Ok(p)
    } else {
        match uvlc_spec(d, p) {
            Ok((_, q)) => skip_uvlcs(d, q, (n - 1) as nat),
            Err(e) => Err(e),
        }
    }
}

/// `flags` with `flag` added when `b` holds.
pub open spec fn with_flag(flags: u32, b: bool, flag: u32) -> u32 {
    if b {
        flags | flag
    } else {
        flags
    }
}

/// The first part of a picture parameter set at bit `p`: the two ids, two
/// flags, the extra slice header bit count, two flags, the default reference
/// counts, the initial QP, two flags and the QP delta depth. The set so far
/// and where the part ends.
pub open spec fn pps_head_spec(d: Seq<u8>, p: int) -> Result<(PicParamSet, int), Error> {
    match uvlc_spec(d, p) {
        Err(e) => Err(e),
        Ok((pps_id, p1)) => match uvlc_spec(d, p1) {
            Err(e) => Err(e),
            Ok((sps_id, p2)) => if p2 + 7 > 8 * d.len() {
                Err(Error::Eof)
            } else {
                let f = with_flag(0, bit_at(d, p2), DEPENDENT_SLICE_SEGMENTS_ENABLED);
                let f = with_flag(f, bit_at(d, p2 + 1), OUTPUT_FLAG_PRESENT);
                let f = with_flag(f, bit_at(d, p2 + 5), SIGN_DATA_HIDING_ENABLED);
                let f = with_flag(f, bit_at(d, p2 + 6), CABAC_INIT_PRESENT);
                match uvlc_spec(d, p2 + 7) {
                    Err(e) => Err(e),
                    Ok((l0, p3)) => match uvlc_spec(d, p3) {
                        Err(e) => Err(e),
                        Ok((l1, p4)) => match uvlc_spec(d, p4) {
                            Err(e) => Err(e),
                            Ok((_, p5)) => if p5 + 3 > 8 * d.len() {
                                Err(Error::Eof)
                            } else {
                                let f = with_flag(f, bit_at(d, p5), CONSTRAINED_INTRA_PRED);
                                let f = with_flag(f, bit_at(d, p5 + 1), TRANSFORM_SKIP_ENABLED);
                                let set = PicParamSet {
                                    pps_pic_parameter_set_id: pps_id as u64,
                                    pps_seq_parameter_set_id: sps_id as u64,
                                    num_extra_slice_header_bits: bits_value(d, p2 + 2, 3) as u8,
                                    num_ref_idx_l0_default_active_minus1: l0 as u64,
                                    num_ref_idx_l1_default_active_minus1: l1 as u64,
                                    flags: with_flag(f, bit_at(d, p5 + 2), CU_QP_DELTA_ENABLED),
                                };
                                if bit_at(d, p5 + 2) {
                                    match uvlc_spec(d, p5 + 3) {
                                        Err(e) => Err(e),
                                        Ok((_, p6)) => Ok((set, p6)),
                                    }
                                } else {
                                    Ok((set, p5 + 3))
                                }
                            },
                        },
                    },
                }
            },
        },
    }
}

/// The tile layout of a picture parameter set at bit `p`, with tiles
/// enabled: column and row counts, the uniform spacing flag (else one width
/// per column and one height per row), and the loop filter across tiles flag.
/// The flags with those added, and where the layout ends.
pub open spec fn pps_tiles_spec(d: Seq<u8>, p: int, f: u32) -> Result<(u32, int), Error> {
    match uvlc_spec(d, p) {
        Err(e) => Err(e),
        Ok((columns, p1)) => match uvlc_spec(d, p1) {
            Err(e) => Err(e),
            Ok((rows, p2)) => if p2 + 1 > 8 * d.len() {
                Err(Error::Eof)
            } else {
                let sizes = if bit_at(d, p2) {
                    Ok(p2 + 1)
                } else {
                    match skip_uvlcs(d, p2 + 1, columns) {
                        Err(e) => Err(e),
                        Ok(q) => skip_uvlcs(d, q, rows),
                    }
                };
                match sizes {
                    Err(e) => Err(e),
                    Ok(q) => if q + 1 > 8 * d.len() {
                        Err(Error::Eof)
                    } else {
                        let f = with_flag(f, bit_at(d, p2), UNIFORM_SPACING);
                        Ok((with_flag(f, bit_at(d, q), LOOP_FILTER_ACROSS_TILES_ENABLED), q + 1))
                    },
                }
            },
        },
    }
}

/// The middle part of a picture parameter set at bit `p`: the chroma QP
/// offsets, four flags, the tiles and entropy coding sync flags, and the tile
/// layout when tiles are enabled.
pub open spec fn pps_middle_spec(d: Seq<u8>, p: int, f: u32) -> Result<(u32, int), Error> {
    match uvlc_spec(d, p) {
        Err(e) => Err(e),
        Ok((_, p1)) => match uvlc_spec(d, p1) {
            Err(e) => Err(e),
            Ok((_, p2)) => if p2 + 6 > 8 * d.len() {
                Err(Error::Eof)
            } else {
                let f = with_flag(f, bit_at(d, p2), PPS_SLICE_CHROMA_QP_OFFSETS_PRESENT);
                let f = with_flag(f, bit_at(d, p2 + 1), WEIGHTED_PRED);
                let f = with_flag(f, bit_at(d, p2 + 2), WEIGHTED_BIPRED);
                let f = with_flag(f, bit_at(d, p2 + 3), TRANSQUANT_BYPASS_ENABLED);
                let f = with_flag(f, bit_at(d, p2 + 4), TILES_ENABLED);
                let f = with_flag(f, bit_at(d, p2 + 5), ENTROPY_CODING_SYNC_ENABLED);
                if bit_at(d, p2 + 4) {
                    pps_tiles_spec(d, p2 + 6, f)
                } else {
                    Ok((f, p2 + 6))
                }
            },
        },
    }
}

/// The last part of a picture parameter set at bit `p`: the loop filter
/// across slices flag, the deblocking controls, the scaling list flag (set
/// means unsupported), the lists modification flag, the parallel merge level,
/// the header extension flag and the extension flag (set means unsupported).
pub open spec fn pps_tail_spec(d: Seq<u8>, p: int, f: u32) -> Result<(u32, int), Error> {
    if p + 2 > 8 * d.len() {
        Err(Error::Eof)
    } else {
        let f = with_flag(f, bit_at(d, p), PPS_LOOP_FILTER_ACROSS_SLICES_ENABLED);
        let f = with_flag(f, bit_at(d, p + 1), DEBLOCKING_FILTER_CONTROL_PRESENT);
        let deblocking = if !bit_at(d, p + 1) {
            Ok((f, p + 2))
        } else if p + 4 > 8 * d.len() {
            Err(Error::Eof)
        } else {
            let f = with_flag(f, bit_at(d, p + 2), DEBLOCKING_FILTER_OVERRIDE_ENABLED);
            let f = with_flag(f, bit_at(d, p + 3), PPS_DEBLOCKING_FILTER_DISABLED);
            if bit_at(d, p + 3) {
                Ok((f, p + 4))
            } else {
                match uvlc_spec(d, p + 4) {
                    Err(e) => Err(e),
                    Ok((_, q1)) => match uvlc_spec(d, q1) {
                        Err(e) => Err(e),
                        Ok((_, q2)) => Ok((f, q2)),
                    },
                }
            }
        };
        match deblocking {
            Err(e) => Err(e),
            Ok((f, q)) => if q + 2 > 8 * d.len() {
                Err(Error::Eof)
            } else if bit_at(d, q) {
                Err(Error::Unsupported)
            } else {
                let f = with_flag(f, bit_at(d, q + 1), LISTS_MODIFICATION_PRESENT);
                match uvlc_spec(d, q + 2) {
                    Err(e) => Err(e),
                    Ok((_, q3)) => if q3 + 2 > 8 * d.len() {
                        Err(Error::Eof)
                    } else if bit_at(d, q3 + 1) {
                        Err(Error::Unsupported)
                    } else {
                        Ok((with_flag(f, bit_at(d, q3), SLICE_SEGMENT_HEADER_EXTENSION_PRESENT), q3 + 2))
                    },
                }
            },
        }
    }
}

/// The picture parameter set at bit `p` of `d`, up to and including its RBSP
/// trailing bits, and where it ends; or why it cannot be read.
pub open spec fn pps_spec(d: Seq<u8>, p: int) -> Result<(PicParamSet, int), Error> {
    match pps_head_spec(d, p) {
        Err(e) => Err(e),
        Ok((set, p1)) => match pps_middle_spec(d, p1, set.flags) {
            Err(e) => Err(e),
            Ok((f, p2)) => match pps_tail_spec(d, p2, f) {
                Err(e) => Err(e),
                Ok((f, p3)) => match trailing_bits_spec(d, p3) {
                    Err(e) => Err(e),
                    Ok(p4) => Ok((PicParamSet { flags: f, ..set }, p4)),
                },
            },
        },
    }
}

/// `flags` with `flag` added when `b` holds.
pub(crate) fn add_flag(flags: u32, b: bool, flag: u32) -> (r: u32)
    ensures
        r == with_flag(flags, b, flag),
{
    if b {
        flags | flag
    } else {
        flags
    }
}

/// Passes over `n` Exp-Golomb codes.
pub(crate) fn skip_codes(from: &mut BitReader, n: u64) -> (r: Result<(), Error>)
    requires
        old(from).wf(),
    ensures
        old(from).progressed(final(from)),
        match skip_uvlcs(old(from).bytes(), old(from).pos(), n as nat) {
            Ok(q) => r == Ok::<(), Error>(()) && final(from).pos() == q,
            Err(e) => r == Err::<(), Error>(e),
        },
{
    let ghost d = from.bytes();
    let mut i: u64 = 0;
    while i < n
        invariant
            old(from).progressed(from),
            d == old(from).bytes(),
            i <= n,
            skip_uvlcs(d, old(from).pos(), n as nat) == skip_uvlcs(d, from.pos(), (n - i) as nat),
        decreases n - i,
    {
        let _ = read_uvlc(from)?;
        i = i + 1;
    }
    Ok(())
}

fn pps_head(from: &mut BitReader) -> (r: Result<PicParamSet, Error>)
    requires
        old(from).wf(),
    ensures
        old(from).progressed(final(from)),
        match pps_head_spec(old(from).bytes(), old(from).pos()) {
            Ok((set, q)) => r == Ok::<PicParamSet, Error>(set) && final(from).pos() == q,
            Err(e) => r == Err::<PicParamSet, Error>(e),
        },
        r is Ok ==> r->Ok_0.wf(),
{
    let pps_pic_parameter_set_id = read_uvlc(from)?;
    let pps_seq_parameter_set_id = read_uvlc(from)?;
    let flags = add_flag(0, from.read_bool()?, DEPENDENT_SLICE_SEGMENTS_ENABLED);
    let flags = add_flag(flags, from.read_bool()?, OUTPUT_FLAG_PRESENT);
    let num_extra_slice_header_bits = from.read_u8(3)?;
    proof {
        vstd::arithmetic::power2::lemma2_to64();
    }
    let flags = add_flag(flags, from.read_bool()?, SIGN_DATA_HIDING_ENABLED);
    let flags = add_flag(flags, from.read_bool()?, CABAC_INIT_PRESENT);
    let num_ref_idx_l0_default_active_minus1 = read_uvlc(from)?;
    let num_ref_idx_l1_default_active_minus1 = read_uvlc(from)?;
    let _init_qp_minus26 = read_svlc(from)?;
    let flags = add_flag(flags, from.read_bool()?, CONSTRAINED_INTRA_PRED);
    let flags = add_flag(flags, from.read_bool()?, TRANSFORM_SKIP_ENABLED);
    let cu_qp_delta_enabled = from.read_bool()?;
    let flags = add_flag(flags, cu_qp_delta_enabled, CU_QP_DELTA_ENABLED);
    if cu_qp_delta_enabled {
        let _diff_cu_qp_delta_depth = read_uvlc(from)?;
    }
    Ok(
        PicParamSet {
            pps_pic_parameter_set_id,
            pps_seq_parameter_set_id,
            num_extra_slice_header_bits,
            num_ref_idx_l0_default_active_minus1,
            num_ref_idx_l1_default_active_minus1,
            flags,
        },
    )
}

fn pps_tiles(from: &mut BitReader, flags: u32) -> (r: Result<u32, Error>)
    requires
        old(from).wf(),
    ensures
        old(from).progressed(final(from)),
        match pps_tiles_spec(old(from).bytes(), old(from).pos(), flags) {
            Ok((f, q)) => r == Ok::<u32, Error>(f) && final(from).pos() == q,
            Err(e) => r == Err::<u32, Error>(e),
        },
{
    let num_tile_columns_minus1 = read_uvlc(from)?;
    let num_tile_rows_minus1 = read_uvlc(from)?;
    let uniform_spacing = from.read_bool()?;
    if !uniform_spacing {
        skip_codes(from, num_tile_columns_minus1)?;
        skip_codes(from, num_tile_rows_minus1)?;
    }
    let loop_filter_across_tiles = from.read_bool()?;
    let flags = add_flag(flags, uniform_spacing, UNIFORM_SPACING);
    Ok(add_flag(flags, loop_filter_across_tiles, LOOP_FILTER_ACROSS_TILES_ENABLED))
}

fn pps_middle(from: &mut BitReader, flags: u32) -> (r: Result<u32, Error>)
    requires
        old(from).wf(),
    ensures
        old(from).progressed(final(from)),
        match pps_middle_spec(old(from).bytes(), old(from).pos(), flags) {
            Ok((f, q)) => r == Ok::<u32, Error>(f) && final(from).pos() == q,
            Err(e) => r == Err::<u32, Error>(e),
        },
{
    let _pps_cb_qp_offset = read_svlc(from)?;
    let _pps_cr_qp_offset = read_svlc(from)?;
    let flags = add_flag(flags, from.read_bool()?, PPS_SLICE_CHROMA_QP_OFFSETS_PRESENT);
    let flags = add_flag(flags, from.read_bool()?, WEIGHTED_PRED);
    let flags = add_flag(flags, from.read_bool()?, WEIGHTED_BIPRED);
    let flags = add_flag(flags, from.read_bool()?, TRANSQUANT_BYPASS_ENABLED);
    let tiles_enabled = from.read_bool()?;
    let flags = add_flag(flags, tiles_enabled, TILES_ENABLED);
    let flags = add_flag(flags, from.read_bool()?, ENTROPY_CODING_SYNC_ENABLED);
    if tiles_enabled {
        pps_tiles(from, flags)
    } else {
        Ok(flags)
    }
}

fn pps_tail(from: &mut BitReader, flags: u32) -> (r: Result<u32, Error>)
    requires
        old(from).wf(),
    ensures
        old(from).progressed(final(from)),
        match pps_tail_spec(old(from).bytes(), old(from).pos(), flags) {
            Ok((f, q)) => r == Ok::<u32, Error>(f) && final(from).pos() == q,
            Err(e) => r == Err::<u32, Error>(e),
        },
{
    if from.bits_left() < 2 {
        return Err(Error::Eof);
    }
    let flags = add_flag(flags, from.read_bool()?, PPS_LOOP_FILTER_ACROSS_SLICES_ENABLED);
    let deblocking_filter_control = from.read_bool()?;
    let mut flags = add_flag(flags, deblocking_filter_control, DEBLOCKING_FILTER_CONTROL_PRESENT);
    if deblocking_filter_control {
        if from.bits_left() < 2 {
            return Err(Error::Eof);
        }
        flags = add_flag(flags, from.read_bool()?, DEBLOCKING_FILTER_OVERRIDE_ENABLED);
        let disabled = from.read_bool()?;
        flags = add_flag(flags, disabled, PPS_DEBLOCKING_FILTER_DISABLED);
        if !disabled {
            let _pps_beta_offset_div2 = read_svlc(from)?;
            let _pps_tc_offset_div2 = read_svlc(from)?;
        }
    }
    if from.bits_left() < 2 {
        return Err(Error::Eof);
    }
    if from.read_bool()? {
        return Err(Error::Unsupported);
    }
    let flags = add_flag(flags, from.read_bool()?, LISTS_MODIFICATION_PRESENT);
    let _log2_parallel_merge_level_minus2 = read_uvlc(from)?;
    if from.bits_left() < 2 {
        return Err(Error::Eof);
    }
    let flags = add_flag(flags, from.read_bool()?, SLICE_SEGMENT_HEADER_EXTENSION_PRESENT);
    if from.read_bool()? {
        return Err(Error::Unsupported);
    }
    Ok(flags)
}

/// Parses a picture parameter set from an unescaped payload, up to and
/// including its RBSP trailing bits. Scaling list data and extensions are
/// refused as unsupported.
pub fn picture_parameter_set(from: &mut BitReader) -> (r: Result<PicParamSet, Error>)
    requires
        old(from).wf(),
    ensures
        old(from).progressed(final(from)),
        match pps_spec(old(from).bytes(), old(from).pos()) {
            Ok((set, q)) => r == Ok::<PicParamSet, Error>(set) && final(from).pos() == q,
            Err(e) => r == Err::<PicParamSet, Error>(e),
        },
        r is Ok ==> r->Ok_0.wf(),
        r is Ok ==> final(from).pos() % 8 == 0,
{
    let head = pps_head(from)?;
    let flags = pps_middle(from, head.flags)?;
    let flags = pps_tail(from, flags)?;
    rbsp_trailing_bits(from)?;
    Ok(PicParamSet { flags, ..head })
}

} // verus!
