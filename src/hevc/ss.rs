use vstd::prelude::*;

use crate::bit::bit_at;
use crate::bit::BitReader;
use crate::error::Error;
use crate::hevc::pps;
use crate::hevc::pps::PicParamSet;
use crate::hevc::rbsp_trailing_bits;
use crate::hevc::read_svlc;
use crate::hevc::pps::add_flag;
use crate::hevc::pps::with_flag;
use crate::hevc::read_uvlc;
use crate::hevc::trailing_bits_spec;
use crate::hevc::uvlc_spec;
use crate::hevc::sps;
use crate::hevc::sps::SeqParamSet;
use crate::hevc::NAL_BLA_W_LP;
use crate::hevc::NAL_IDR_N_LP;
use crate::hevc::NAL_IDR_W_RADL;
use crate::hevc::NAL_RSV_IRAP_VCL23;

verus! {

pub const SLICE_TYPE_B: u64 = 0;

pub const SLICE_TYPE_P: u64 = 1;

pub const SLICE_TYPE_I: u64 = 2;

pub const FIRST_SLICE_SEGMENT_IN_PIC: u32 = 1 << 0;

pub const NO_OUTPUT_OF_PRIOR_PICS: u32 = 1 << 1;

pub const DEPENDENT_SLICE_SEGMENT: u32 = 1 << 2;

pub const PIC_OUTPUT: u32 = 1 << 3;

pub const SHORT_TERM_REF_PIC_SET_SPS: u32 = 1 << 4;

pub const USED_BY_CURR_PIC_LT: u32 = 1 << 5;

pub const DELTA_POC_MSB_PRESENT: u32 = 1 << 6;

pub const SLICE_TEMPORAL_MVP_ENABLED: u32 = 1 << 7;

pub const SLICE_SAO_LUMA: u32 = 1 << 8;

pub const SLICE_SAO_CHROMA: u32 = 1 << 9;

pub const NUM_REF_IDX_ACTIVE_OVERRIDE: u32 = 1 << 10;

pub const MVD_L1_ZERO: u32 = 1 << 11;

pub const CABAC_INIT: u32 = 1 << 12;

pub const COLLOCATED_FROM_L0: u32 = 1 << 13;

pub const DEBLOCKING_FILTER_OVERRIDE: u32 = 1 << 14;

pub const SLICE_DEBLOCKING_FILTER_DISABLED: u32 = 1 << 15;

pub const SLICE_LOOP_FILTER_ACROSS_SLICES_ENABLED: u32 = 1 << 16;

/// The flags decoded from a slice segment header, as the bits above.
#[derive(Debug, Clone, Copy, PartialEq, Eq, Structural)]
pub struct SliceSegmentHeader {
    pub flags: u32,
}

impl SliceSegmentHeader {
    /// Whether every bit of `flag` is set.
    pub fn contains(&self, flag: u32) -> (r: bool)
        ensures
            r == (self.flags & flag == flag),
    {
        self.flags & flag == flag
    }
}

/// Whether every bit of `flag` is set in `flags`.
pub open spec fn has_flag(flags: u32, flag: u32) -> bool {
    flags & flag == flag
}

/// Step 5 of the grammar at bit `p`, for a NAL unit that is not an IDR
/// picture: the picture order count LSBs, the flag that the reference
/// picture set comes from the SPS (clear means unsupported; so is a choice
/// among several sets), the long-term pictures (only those the SPS lists,
/// and at most one of them, are supported) and the temporal MVP flag. The
/// flags with those added, and where the step ends.
pub open spec fn reference_pictures_spec(d: Seq<u8>, p: int, sps: SeqParamSet, f: u32) -> Result<
    (u32, int),
    Error,
> {
    let n = 8 * d.len();
    let q = p + sps.log2_max_pic_order_cnt_lsb_minus4 + 4;
    if q + 1 > n {
        Err(Error::Eof)
    } else if !bit_at(d, q) {
        Err(Error::Unsupported)
    } else if sps.num_short_term_ref_pic_sets > 1 {
        Err(Error::Unsupported)
    } else {
        let f = f | SHORT_TERM_REF_PIC_SET_SPS;
        let long_term = if !has_flag(sps.flags, sps::LONG_TERM_REF_PICS_PRESENT) {
            Ok((f, q + 1))
        } else {
            let listed = if sps.num_long_term_ref_pics_sps > 0 {
                match uvlc_spec(d, q + 1) {
                    Err(e) => Err(e),
                    Ok((v, q1)) => if v > sps.num_long_term_ref_pics_sps {
                        Err(Error::Range)
                    } else {
                        Ok((v, q1))
                    },
                }
            } else {
                Ok((0nat, q + 1))
            };
            match listed {
                Err(e) => Err(e),
                Ok((num_long_term_sps, q1)) => match uvlc_spec(d, q1) {
                    Err(e) => Err(e),
                    Ok((num_long_term_pics, q2)) => if num_long_term_pics > 255 {
                        Err(Error::Range)
                    } else if num_long_term_sps + num_long_term_pics == 0 {
                        Ok((f, q2))
                    } else if num_long_term_sps == 0 || sps.num_long_term_ref_pics_sps > 1 {
                        Err(Error::Unsupported)
                    } else if q2 + 1 > n {
                        Err(Error::Eof)
                    } else {
                        let f = with_flag(f, bit_at(d, q2), DELTA_POC_MSB_PRESENT);
                        let cycle = if bit_at(d, q2) {
                            match uvlc_spec(d, q2 + 1) {
                                Err(e) => Err(e),
                                Ok((_, q3)) => Ok(q3),
                            }
                        } else {
                            Ok(q2 + 1)
                        };
                        match cycle {
                            Err(e) => Err(e),
                            Ok(q3) => if num_long_term_pics > 0 {
                                Err(Error::Unsupported)
                            } else {
                                Ok((f, q3))
                            },
                        }
                    },
                },
            }
        };
        match long_term {
            Err(e) => Err(e),
            Ok((f, q4)) => if !has_flag(sps.flags, sps::SPS_TEMPORAL_MVP_ENABLED) {
                Ok((f, q4))
            } else if q4 + 1 > n {
                Err(Error::Eof)
            } else {
                Ok((with_flag(f, bit_at(d, q4), SLICE_TEMPORAL_MVP_ENABLED), q4 + 1))
            },
        }
    }
}

/// Step 7 of the grammar at bit `p`, for a P or B slice: the active
/// reference count override, list modification (unsupported), the MVD L1
/// zero and CABAC init flags, the collocated picture, weighted prediction
/// (unsupported) and the merge candidate count.
pub open spec fn inter_prediction_spec(
    d: Seq<u8>,
    p: int,
    pps: PicParamSet,
    slice_type: u64,
    f: u32,
) -> Result<(u32, int), Error> {
    let n = 8 * d.len();
    if p + 1 > n {
        Err(Error::Eof)
    } else {
        let f = with_flag(f, bit_at(d, p), NUM_REF_IDX_ACTIVE_OVERRIDE);
        let counts = if !bit_at(d, p) {
            Ok(
                (
                    pps.num_ref_idx_l0_default_active_minus1 as nat,
                    pps.num_ref_idx_l1_default_active_minus1 as nat,
                    p + 1,
                ),
            )
        } else {
            match uvlc_spec(d, p + 1) {
                Err(e) => Err(e),
                Ok((l0, q1)) => if slice_type == SLICE_TYPE_B {
                    match uvlc_spec(d, q1) {
                        Err(e) => Err(e),
                        Ok((l1, q2)) => Ok((l0, l1, q2)),
                    }
                } else {
                    Ok((l0, pps.num_ref_idx_l1_default_active_minus1 as nat, q1))
                },
            }
        };
        match counts {
            Err(e) => Err(e),
            Ok((l0, l1, q1)) => if has_flag(pps.flags, pps::LISTS_MODIFICATION_PRESENT) {
                Err(Error::Unsupported)
            } else {
                let mvd = if slice_type != SLICE_TYPE_B {
                    Ok((f, q1))
                } else if q1 + 1 > n {
                    Err(Error::Eof)
                } else {
                    Ok((with_flag(f, bit_at(d, q1), MVD_L1_ZERO), q1 + 1))
                };
                match mvd {
                    Err(e) => Err(e),
                    Ok((f, q2)) => {
                        let cabac = if !has_flag(pps.flags, pps::CABAC_INIT_PRESENT) {
                            Ok((f, q2))
                        } else if q2 + 1 > n {
                            Err(Error::Eof)
                        } else {
                            Ok((with_flag(f, bit_at(d, q2), CABAC_INIT), q2 + 1))
                        };
                        match cabac {
                            Err(e) => Err(e),
                            Ok((f, q3)) => {
                                let collocated = if f & SLICE_TEMPORAL_MVP_ENABLED == 0 {
                                    Ok((f, q3))
                                } else {
                                    let from_l0 = if slice_type == SLICE_TYPE_B {
                                        if q3 + 1 > n {
                                            Err(Error::Eof)
                                        } else {
                                            Ok((bit_at(d, q3), q3 + 1))
                                        }
                                    } else {
                                        Ok((true, q3))
                                    };
                                    match from_l0 {
                                        Err(e) => Err(e),
                                        Ok((l0_side, q4)) => {
                                            let f = with_flag(f, l0_side, COLLOCATED_FROM_L0);
                                            if (l0_side && l0 > 0) || (!l0_side && l1 > 0) {
                                                match uvlc_spec(d, q4) {
                                                    Err(e) => Err(e),
                                                    Ok((_, q5)) => Ok((f, q5)),
                                                }
                                            } else {
                                                Ok((f, q4))
                                            }
                                        },
                                    }
                                };
                                match collocated {
                                    Err(e) => Err(e),
                                    Ok((f, q6)) => if (has_flag(pps.flags, pps::WEIGHTED_PRED)
                                        && slice_type == SLICE_TYPE_P) || (has_flag(
                                        pps.flags,
                                        pps::WEIGHTED_BIPRED,
                                    ) && slice_type == SLICE_TYPE_B) {
                                        Err(Error::Unsupported)
                                    } else {
                                        match uvlc_spec(d, q6) {
                                            Err(e) => Err(e),
                                            Ok((_, q7)) => Ok((f, q7)),
                                        }
                                    },
                                }
                            },
                        }
                    },
                }
            },
        }
    }
}

/// Step 8 of the grammar at bit `p`: the QP delta, the chroma QP offsets,
/// the deblocking override and parameters, and the loop filter across slices
/// flag.
pub open spec fn quantiser_spec(d: Seq<u8>, p: int, pps: PicParamSet, f: u32) -> Result<
    (u32, int),
    Error,
> {
    let n = 8 * d.len();
    match uvlc_spec(d, p) {
        Err(e) => Err(e),
        Ok((_, q1)) => {
            let chroma = if has_flag(pps.flags, pps::PPS_SLICE_CHROMA_QP_OFFSETS_PRESENT) {
                match uvlc_spec(d, q1) {
                    Err(e) => Err(e),
                    Ok((_, q)) => match uvlc_spec(d, q) {
                        Err(e) => Err(e),
                        Ok((_, q2)) => Ok(q2),
                    },
                }
            } else {
                Ok(q1)
            };
            match chroma {
                Err(e) => Err(e),
                Ok(q2) => {
                    let overriding = if !has_flag(pps.flags, pps::DEBLOCKING_FILTER_OVERRIDE_ENABLED) {
                        Ok((f, false, q2))
                    } else if q2 + 1 > n {
                        Err(Error::Eof)
                    } else {
                        Ok(
                            (
                                with_flag(f, bit_at(d, q2), DEBLOCKING_FILTER_OVERRIDE),
                                bit_at(d, q2),
                                q2 + 1,
                            ),
                        )
                    };
                    match overriding {
                        Err(e) => Err(e),
                        Ok((f, o, q3)) => {
                            let deblocking = if !o {
                                Ok((f, false, q3))
                            } else if q3 + 1 > n {
                                Err(Error::Eof)
                            } else if bit_at(d, q3) {
                                Ok((f | SLICE_DEBLOCKING_FILTER_DISABLED, true, q3 + 1))
                            } else {
                                match uvlc_spec(d, q3 + 1) {
                                    Err(e) => Err(e),
                                    Ok((_, q)) => match uvlc_spec(d, q) {
                                        Err(e) => Err(e),
                                        Ok((_, q4)) => Ok((f, false, q4)),
                                    },
                                }
                            };
                            match deblocking {
                                Err(e) => Err(e),
                                Ok((f, disabled, q4)) => {
                                    let sao = f & (SLICE_SAO_LUMA | SLICE_SAO_CHROMA) != 0;
                                    if has_flag(pps.flags, pps::PPS_LOOP_FILTER_ACROSS_SLICES_ENABLED)
                                        && (sao || !disabled) {
                                        if q4 + 1 > n {
                                            Err(Error::Eof)
                                        } else {
                                            Ok(
                                                (
                                                    with_flag(
                                                        f,
                                                        bit_at(d, q4),
                                                        SLICE_LOOP_FILTER_ACROSS_SLICES_ENABLED,
                                                    ),
                                                    q4 + 1,
                                                ),
                                            )
                                        }
                                    } else {
                                        Ok((f, q4))
                                    }
                                },
                            }
                        },
                    }
                },
            }
        },
    }
}

/// Where `count` fields of `len` bits from bit `p` end.
pub open spec fn fixed_fields(d: Seq<u8>, p: int, count: nat, len: nat) -> Result<int, Error>
    decreases count,
{
    if count == 0 {
        Ok(p)
    } else if p + len > 8 * d.len() {
        Err(Error::Eof)
    } else {
        fixed_fields(d, p + len, (count - 1) as nat, len)
    }
}

/// Step 9 of the grammar at bit `p`: with tiles or entropy coding sync, the
/// entry point count and, when there are any, their width (at most 32 bits)
/// and the offsets.
pub open spec fn entry_points_spec(d: Seq<u8>, p: int, pps: PicParamSet) -> Result<int, Error> {
    if !has_flag(pps.flags, pps::TILES_ENABLED) && !has_flag(pps.flags, pps::ENTROPY_CODING_SYNC_ENABLED) {
        Ok(p)
    } else {
        match uvlc_spec(d, p) {
            Err(e) => Err(e),
            Ok((count, q1)) => if count == 0 {
                Ok(q1)
            } else {
                match uvlc_spec(d, q1) {
                    Err(e) => Err(e),
                    Ok((len_minus1, q2)) => if len_minus1 >= 32 {
                        Err(Error::Range)
                    } else {
                        fixed_fields(d, q2, count, len_minus1 + 1)
                    },
                }
            },
        }
    }
}

/// Steps 3 to 5 of the grammar at bit `p`, for a segment that is not a
/// dependent one: reserved bits, the slice type (3 or more is out of range),
/// the output and colour plane fields, and the reference pictures (not for
/// IDR pictures). The flags, the slice type, and where the steps end.
pub open spec fn slice_kind_spec(
    nal_unit_type: u8,
    d: Seq<u8>,
    p: int,
    pps: PicParamSet,
    sps: SeqParamSet,
    f: u32,
) -> Result<(u32, nat, int), Error> {
    let n = 8 * d.len();
    let q0 = p + pps.num_extra_slice_header_bits;
    if q0 > n {
        Err(Error::Eof)
    } else {
        match uvlc_spec(d, q0) {
            Err(e) => Err(e),
            Ok((slice_type, q1)) => if slice_type >= 3 {
                Err(Error::Range)
            } else {
                let output = if !has_flag(pps.flags, pps::OUTPUT_FLAG_PRESENT) {
                    Ok((f, q1))
                } else if q1 + 1 > n {
                    Err(Error::Eof)
                } else {
                    Ok((with_flag(f, bit_at(d, q1), PIC_OUTPUT), q1 + 1))
                };
                match output {
                    Err(e) => Err(e),
                    Ok((f, q2)) => {
                        let plane = if !has_flag(sps.flags, sps::SEPARATE_COLOUR_PLANE) {
                            Ok(q2)
                        } else if q2 + 2 > n {
                            Err(Error::Eof)
                        } else {
                            Ok(q2 + 2)
                        };
                        match plane {
                            Err(e) => Err(e),
                            Ok(q3) => if nal_unit_type != NAL_IDR_W_RADL && nal_unit_type
                                != NAL_IDR_N_LP {
                                match reference_pictures_spec(d, q3, sps, f) {
                                    Err(e) => Err(e),
                                    Ok((f, q4)) => Ok((f, slice_type, q4)),
                                }
                            } else {
                                Ok((f, slice_type, q3))
                            },
                        }
                    },
                }
            },
        }
    }
}

/// Steps 3 to 8 of the grammar at bit `p`, for a segment that is not a
/// dependent one: the steps above, the SAO flags, inter prediction (P and B
/// slices) and the quantiser and filters.
pub open spec fn independent_spec(
    nal_unit_type: u8,
    d: Seq<u8>,
    p: int,
    pps: PicParamSet,
    sps: SeqParamSet,
    f: u32,
) -> Result<(u32, int), Error> {
    let n = 8 * d.len();
    match slice_kind_spec(nal_unit_type, d, p, pps, sps, f) {
        Err(e) => Err(e),
        Ok((f, slice_type, q4)) => {
            let sao = if !has_flag(sps.flags, sps::SAMPLE_ADAPTIVE_OFFSET_ENABLED) {
                Ok((f, q4))
            } else if q4 + 2 > n {
                Err(Error::Eof)
            } else {
                let f = with_flag(f, bit_at(d, q4), SLICE_SAO_LUMA);
                Ok((with_flag(f, bit_at(d, q4 + 1), SLICE_SAO_CHROMA), q4 + 2))
            };
            match sao {
                Err(e) => Err(e),
                Ok((f, q5)) => {
                    let inter = if slice_type == SLICE_TYPE_P || slice_type == SLICE_TYPE_B {
                        inter_prediction_spec(d, q5, pps, slice_type as u64, f)
                    } else {
                        Ok((f, q5))
                    };
                    match inter {
                        Err(e) => Err(e),
                        Ok((f, q6)) => quantiser_spec(d, q6, pps, f),
                    }
                },
            }
        },
    }
}

/// The flags of the slice segment header of a NAL unit of type
/// `nal_unit_type` at bit `p`, with the parameter sets it refers to, and
/// where it ends (after its byte alignment); or why it cannot be read.
pub open spec fn slice_segment_header_spec(
    nal_unit_type: u8,
    d: Seq<u8>,
    p: int,
    pps: PicParamSet,
    sps: SeqParamSet,
) -> Result<(u32, int), Error> {
    let n = 8 * d.len();
    if p + 1 > n {
        Err(Error::Eof)
    } else {
        let first = bit_at(d, p);
        let f = with_flag(0, first, FIRST_SLICE_SEGMENT_IN_PIC);
        let prior = if NAL_BLA_W_LP <= nal_unit_type <= NAL_RSV_IRAP_VCL23 {
            if p + 2 > n {
                Err(Error::Eof)
            } else {
                Ok((with_flag(f, bit_at(d, p + 1), NO_OUTPUT_OF_PRIOR_PICS), p + 2))
            }
        } else {
            Ok((f, p + 1))
        };
        match prior {
            Err(e) => Err(e),
            Ok((f, q1)) => match uvlc_spec(d, q1) {
                Err(e) => Err(e),
                Ok((_, q2)) => {
                    let address = if first {
                        Ok((f, false, q2))
                    } else {
                        let dependent = if !has_flag(pps.flags, pps::DEPENDENT_SLICE_SEGMENTS_ENABLED) {
                            Ok((false, q2))
                        } else if q2 + 1 > n {
                            Err(Error::Eof)
                        } else {
                            Ok((bit_at(d, q2), q2 + 1))
                        };
                        match dependent {
                            Err(e) => Err(e),
                            Ok((dep, q3)) => match uvlc_spec(d, q3) {
                                Err(e) => Err(e),
                                Ok((_, q4)) => Ok((with_flag(f, dep, DEPENDENT_SLICE_SEGMENT), dep, q4)),
                            },
                        }
                    };
                    match address {
                        Err(e) => Err(e),
                        Ok((f, dep, q3)) => {
                            let body = if dep {
                                Ok((f, q3))
                            } else {
                                independent_spec(nal_unit_type, d, q3, pps, sps, f)
                            };
                            match body {
                                Err(e) => Err(e),
                                Ok((f, q4)) => match entry_points_spec(d, q4, pps) {
                                    Err(e) => Err(e),
                                    Ok(q5) => {
                                        let extension = if !has_flag(
                                            pps.flags,
                                            pps::SLICE_SEGMENT_HEADER_EXTENSION_PRESENT,
                                        ) {
                                            Ok(q5)
                                        } else {
                                            match uvlc_spec(d, q5) {
                                                Err(e) => Err(e),
                                                Ok((len, q6)) => if len > 0 {
                                                    Err(Error::Unsupported)
                                                } else {
                                                    Ok(q6)
                                                },
                                            }
                                        };
                                        match extension {
                                            Err(e) => Err(e),
                                            Ok(q6) => match trailing_bits_spec(d, q6) {
                                                Err(e) => Err(e),
                                                Ok(q7) => Ok((f, q7)),
                                            },
                                        }
                                    },
                                },
                            }
                        },
                    }
                },
            },
        }
    }
}

fn reference_pictures(from: &mut BitReader, sps: &SeqParamSet, flags: u32) -> (r: Result<
    u32,
    Error,
>)
    requires
        old(from).wf(),
        sps.wf(),
    ensures
        old(from).progressed(final(from)),
        match reference_pictures_spec(old(from).bytes(), old(from).pos(), *sps, flags) {
            Ok((f, q)) => r == Ok::<u32, Error>(f) && final(from).pos() == q,
            Err(e) => r == Err::<u32, Error>(e),
        },
{
    if from.bits_left() < sps.log2_max_pic_order_cnt_lsb_minus4 as u64 + 5 {
        return Err(Error::Eof);
    }
    let _slice_pic_order_cnt_lsb = from.read_u64(sps.log2_max_pic_order_cnt_lsb_minus4 + 4)?;
    if !from.read_bool()? {
        return Err(Error::Unsupported);
    }
    if sps.num_short_term_ref_pic_sets > 1 {
        return Err(Error::Unsupported);
    }
    let mut flags = flags | SHORT_TERM_REF_PIC_SET_SPS;
    if sps.contains(sps::LONG_TERM_REF_PICS_PRESENT) {
        let mut num_long_term_sps: u64 = 0;
        if sps.num_long_term_ref_pics_sps > 0 {
            num_long_term_sps = read_uvlc(from)?;
            if num_long_term_sps > sps.num_long_term_ref_pics_sps as u64 {
                return Err(Error::Range);
            }
        }
        let num_long_term_pics = read_uvlc(from)?;
        if num_long_term_pics > 255 {
            return Err(Error::Range);
        }
        if num_long_term_sps + num_long_term_pics > 0 {
            if num_long_term_sps == 0 || sps.num_long_term_ref_pics_sps > 1 {
                return Err(Error::Unsupported);
            }
            let delta_poc_msb_present = from.read_bool()?;
            flags = add_flag(flags, delta_poc_msb_present, DELTA_POC_MSB_PRESENT);
            if delta_poc_msb_present {
                let _delta_poc_msb_cycle_lt = read_uvlc(from)?;
            }
            if num_long_term_pics > 0 {
                return Err(Error::Unsupported);
            }
        }
    }
    if sps.contains(sps::SPS_TEMPORAL_MVP_ENABLED) {
        flags = add_flag(flags, from.read_bool()?, SLICE_TEMPORAL_MVP_ENABLED);
    }
    Ok(flags)
}

fn inter_prediction(from: &mut BitReader, pps: &PicParamSet, slice_type: u64, flags: u32) -> (r:
    Result<u32, Error>)
    requires
        old(from).wf(),
    ensures
        old(from).progressed(final(from)),
        match inter_prediction_spec(old(from).bytes(), old(from).pos(), *pps, slice_type, flags) {
            Ok((f, q)) => r == Ok::<u32, Error>(f) && final(from).pos() == q,
            Err(e) => r == Err::<u32, Error>(e),
        },
{
    let override_counts = from.read_bool()?;
    let mut flags = add_flag(flags, override_counts, NUM_REF_IDX_ACTIVE_OVERRIDE);
    let mut num_ref_idx_l0_active_minus1 = pps.num_ref_idx_l0_default_active_minus1;
    let mut num_ref_idx_l1_active_minus1 = pps.num_ref_idx_l1_default_active_minus1;
    if override_counts {
        num_ref_idx_l0_active_minus1 = read_uvlc(from)?;
        if slice_type == SLICE_TYPE_B {
            num_ref_idx_l1_active_minus1 = read_uvlc(from)?;
        }
    }
    if pps.contains(pps::LISTS_MODIFICATION_PRESENT) {
        return Err(Error::Unsupported);
    }
    if slice_type == SLICE_TYPE_B {
        flags = add_flag(flags, from.read_bool()?, MVD_L1_ZERO);
    }
    if pps.contains(pps::CABAC_INIT_PRESENT) {
        flags = add_flag(flags, from.read_bool()?, CABAC_INIT);
    }
    if flags & SLICE_TEMPORAL_MVP_ENABLED != 0 {
        let mut collocated_from_l0 = true;
        if slice_type == SLICE_TYPE_B {
            collocated_from_l0 = from.read_bool()?;
        }
        flags = add_flag(flags, collocated_from_l0, COLLOCATED_FROM_L0);
        if (collocated_from_l0 && num_ref_idx_l0_active_minus1 > 0) || (!collocated_from_l0
            && num_ref_idx_l1_active_minus1 > 0) {
            let _collocated_ref_idx = read_uvlc(from)?;
        }
    }
    if (pps.contains(pps::WEIGHTED_PRED) && slice_type == SLICE_TYPE_P) || (pps.contains(
        pps::WEIGHTED_BIPRED,
    ) && slice_type == SLICE_TYPE_B) {
        return Err(Error::Unsupported);
    }
    let _five_minus_max_num_merge_cand = read_uvlc(from)?;
    Ok(flags)
}

fn quantiser_and_filters(from: &mut BitReader, pps: &PicParamSet, flags: u32) -> (r: Result<
    u32,
    Error,
>)
    requires
        old(from).wf(),
    ensures
        old(from).progressed(final(from)),
        match quantiser_spec(old(from).bytes(), old(from).pos(), *pps, flags) {
            Ok((f, q)) => r == Ok::<u32, Error>(f) && final(from).pos() == q,
            Err(e) => r == Err::<u32, Error>(e),
        },
{
    let _slice_qp_delta = read_svlc(from)?;
    if pps.contains(pps::PPS_SLICE_CHROMA_QP_OFFSETS_PRESENT) {
        let _slice_cb_qp_offset = read_svlc(from)?;
        let _slice_cr_qp_offset = read_svlc(from)?;
    }
    let mut flags = flags;
    let mut deblocking_filter_override = false;
    if pps.contains(pps::DEBLOCKING_FILTER_OVERRIDE_ENABLED) {
        deblocking_filter_override = from.read_bool()?;
        flags = add_flag(flags, deblocking_filter_override, DEBLOCKING_FILTER_OVERRIDE);
    }
    let mut slice_deblocking_filter_disabled = false;
    if deblocking_filter_override {
        slice_deblocking_filter_disabled = from.read_bool()?;
        if slice_deblocking_filter_disabled {
            flags = flags | SLICE_DEBLOCKING_FILTER_DISABLED;
        } else {
            let _slice_beta_offset_div2 = read_svlc(from)?;
            let _slice_tc_offset_div2 = read_svlc(from)?;
        }
    }
    let sao = flags & (SLICE_SAO_LUMA | SLICE_SAO_CHROMA) != 0;
    if pps.contains(pps::PPS_LOOP_FILTER_ACROSS_SLICES_ENABLED) && (sao
        || !slice_deblocking_filter_disabled) {
        flags = add_flag(flags, from.read_bool()?, SLICE_LOOP_FILTER_ACROSS_SLICES_ENABLED);
    }
    Ok(flags)
}

fn entry_points(from: &mut BitReader, pps: &PicParamSet) -> (r: Result<(), Error>)
    requires
        old(from).wf(),
    ensures
        old(from).progressed(final(from)),
        match entry_points_spec(old(from).bytes(), old(from).pos(), *pps) {
            Ok(q) => r == Ok::<(), Error>(()) && final(from).pos() == q,
            Err(e) => r == Err::<(), Error>(e),
        },
{
    if pps.contains(pps::TILES_ENABLED) || pps.contains(pps::ENTROPY_CODING_SYNC_ENABLED) {
        let num_entry_point_offsets = read_uvlc(from)?;
        if num_entry_point_offsets > 0 {
            let offset_len_minus1 = read_uvlc(from)?;
            if offset_len_minus1 >= 32 {
                return Err(Error::Range);
            }
            let offset_len = (offset_len_minus1 + 1) as u8;
            let ghost d = from.bytes();
            let ghost q2 = from.pos();
            assert(entry_points_spec(d, old(from).pos(), *pps) == fixed_fields(
                d,
                q2,
                num_entry_point_offsets as nat,
                offset_len as nat,
            ));
            let mut i: u64 = 0;
            while i < num_entry_point_offsets
                invariant
                    old(from).progressed(from),
                    d == old(from).bytes(),
                    offset_len <= 32,
                    i <= num_entry_point_offsets,
                    entry_points_spec(d, old(from).pos(), *pps) == fixed_fields(
                        d,
                        q2,
                        num_entry_point_offsets as nat,
                        offset_len as nat,
                    ),
                    fixed_fields(d, q2, num_entry_point_offsets as nat, offset_len as nat)
                        == fixed_fields(
                        d,
                        from.pos(),
                        (num_entry_point_offsets - i) as nat,
                        offset_len as nat,
                    ),
                decreases num_entry_point_offsets - i,
            {
                let _entry_point_offset_minus1 = from.read_u32(offset_len)?;
                i = i + 1;
            }
        }
    }
    Ok(())
}

fn slice_kind_fields(
    nal_unit_type: u8,
    from: &mut BitReader,
    pps: &PicParamSet,
    sps: &SeqParamSet,
    flags: u32,
) -> (r: Result<(u32, u64), Error>)
    requires
        old(from).wf(),
        pps.wf(),
        sps.wf(),
    ensures
        old(from).progressed(final(from)),
        match slice_kind_spec(nal_unit_type, old(from).bytes(), old(from).pos(), *pps, *sps, flags) {
            Ok((f, t, q)) => r == Ok::<(u32, u64), Error>((f, t as u64)) && t < 3 && final(from).pos()
                == q,
            Err(e) => r == Err::<(u32, u64), Error>(e),
        },
{
    let _slice_reserved_flag = from.read_u64(pps.num_extra_slice_header_bits)?;
    let slice_type = read_uvlc(from)?;
    if slice_type >= 3 {
        return Err(Error::Range);
    }
    let mut flags = flags;
    if pps.contains(pps::OUTPUT_FLAG_PRESENT) {
        flags = add_flag(flags, from.read_bool()?, PIC_OUTPUT);
    }
    if sps.contains(sps::SEPARATE_COLOUR_PLANE) {
        let _colour_plane_id = from.read_u8(2)?;
    }
    if nal_unit_type != NAL_IDR_W_RADL && nal_unit_type != NAL_IDR_N_LP {
        flags = reference_pictures(from, sps, flags)?;
    }
    Ok((flags, slice_type))
}

fn independent_fields(
    nal_unit_type: u8,
    from: &mut BitReader,
    pps: &PicParamSet,
    sps: &SeqParamSet,
    flags: u32,
) -> (r: Result<u32, Error>)
    requires
        old(from).wf(),
        pps.wf(),
        sps.wf(),
    ensures
        old(from).progressed(final(from)),
        match independent_spec(nal_unit_type, old(from).bytes(), old(from).pos(), *pps, *sps, flags) {
            Ok((f, q)) => r == Ok::<u32, Error>(f) && final(from).pos() == q,
            Err(e) => r == Err::<u32, Error>(e),
        },
{
    let (flags, slice_type) = slice_kind_fields(nal_unit_type, from, pps, sps, flags)?;
    let mut flags = flags;
    if sps.contains(sps::SAMPLE_ADAPTIVE_OFFSET_ENABLED) {
        if from.bits_left() < 2 {
            return Err(Error::Eof);
        }
        flags = add_flag(flags, from.read_bool()?, SLICE_SAO_LUMA);
        flags = add_flag(flags, from.read_bool()?, SLICE_SAO_CHROMA);
    }
    if slice_type == SLICE_TYPE_P || slice_type == SLICE_TYPE_B {
        flags = inter_prediction(from, pps, slice_type, flags)?;
    }
    quantiser_and_filters(from, pps, flags)
}

/// Parses a slice segment header of a NAL unit of type `nal_unit_type` from
/// its unescaped payload, with the parameter sets it refers to, up to and
/// including the closing byte alignment. Explicit short-term reference
/// picture sets, long-term pictures beyond the one the sequence parameter set
/// lists, reference list modification, weighted prediction tables and header
/// extension data are refused as unsupported; a slice type of 3 or more is
/// out of range.
pub fn slice_segment_header(
    nal_unit_type: u8,
    from: &mut BitReader,
    pps: &PicParamSet,
    sps: &SeqParamSet,
) -> (r: Result<SliceSegmentHeader, Error>)
    requires
        old(from).wf(),
        pps.wf(),
        sps.wf(),
    ensures
        old(from).progressed(final(from)),
        match slice_segment_header_spec(nal_unit_type, old(from).bytes(), old(from).pos(), *pps, *sps) {
            Ok((f, q)) => r == Ok::<SliceSegmentHeader, Error>(SliceSegmentHeader { flags: f })
                && final(from).pos() == q,
            Err(e) => r == Err::<SliceSegmentHeader, Error>(e),
        },
        r is Ok ==> final(from).pos() % 8 == 0,
{
    let first_slice_segment_in_pic = from.read_bool()?;
    let mut flags = add_flag(0, first_slice_segment_in_pic, FIRST_SLICE_SEGMENT_IN_PIC);
    if NAL_BLA_W_LP <= nal_unit_type && nal_unit_type <= NAL_RSV_IRAP_VCL23 {
        flags = add_flag(flags, from.read_bool()?, NO_OUTPUT_OF_PRIOR_PICS);
    }

    let _slice_pic_parameter_set_id = read_uvlc(from)?;
    let mut dependent_slice_segment = false;
    if !first_slice_segment_in_pic {
        if pps.contains(pps::DEPENDENT_SLICE_SEGMENTS_ENABLED) {
            dependent_slice_segment = from.read_bool()?;
        }
        let _slice_segment_address = read_uvlc(from)?;
        flags = add_flag(flags, dependent_slice_segment, DEPENDENT_SLICE_SEGMENT);
    }

    if !dependent_slice_segment {
        flags = independent_fields(nal_unit_type, from, pps, sps, flags)?;
    }
    entry_points(from, pps)?;
    if pps.contains(pps::SLICE_SEGMENT_HEADER_EXTENSION_PRESENT) {
        let slice_segment_header_extension_length = read_uvlc(from)?;
        if slice_segment_header_extension_length > 0 {
            return Err(Error::Unsupported);
        }
    }

    rbsp_trailing_bits(from)?;

    Ok(SliceSegmentHeader { flags })
}

} // verus!
