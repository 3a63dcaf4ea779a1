use vstd::prelude::*;

use crate::bit::bit_at;
use crate::bit::bits_value;
use crate::bit::BitReader;
use crate::error::Error;
use crate::hevc::rbsp_trailing_bits;
use crate::hevc::read_svlc;
use crate::hevc::pps::add_flag;
use crate::hevc::pps::skip_codes;
use crate::hevc::pps::skip_uvlcs;
use crate::hevc::pps::with_flag;
use crate::hevc::read_uvlc;
use crate::hevc::trailing_bits_spec;
use crate::hevc::uvlc_spec;
use crate::hevc::vps::profile_tier_level;
use crate::hevc::vps::ptl_end;

verus! {

pub const SPS_TEMPORAL_ID_NESTING: u32 = 1 << 0;

pub const SEPARATE_COLOUR_PLANE: u32 = 1 << 1;

pub const CONFORMANCE_WINDOW: u32 = 1 << 2;

pub const SPS_SUB_LAYER_ORDERING_INFO_PRESENT: u32 = 1 << 3;

pub const SCALING_LIST_ENABLED: u32 = 1 << 4;

pub const SPS_SCALING_LIST_DATA_PRESENT: u32 = 1 << 5;

pub const AMP_ENABLED: u32 = 1 << 6;

pub const SAMPLE_ADAPTIVE_OFFSET_ENABLED: u32 = 1 << 7;

pub const PCM_ENABLED: u32 = 1 << 8;

pub const PCM_LOOP_FILTER_DISABLED: u32 = 1 << 9;

pub const LONG_TERM_REF_PICS_PRESENT: u32 = 1 << 10;

pub const USED_BY_CURR_PIC_LT_SPS: u32 = 1 << 11;

pub const SPS_TEMPORAL_MVP_ENABLED: u32 = 1 << 12;

pub const STRONG_INTRA_SMOOTHING_ENABLED: u32 = 1 << 13;

pub const VUI_PARAMETERS_PRESENT: u32 = 1 << 14;

pub const SPS_EXTENSION: u32 = 1 << 15;

/// What a slice segment header needs of a sequence parameter set. `flags`
/// holds the flag bits above.
#[derive(Debug, Clone, Copy, PartialEq, Eq, Structural)]
pub struct SeqParamSet {
    pub log2_max_pic_order_cnt_lsb_minus4: u8,
    pub num_short_term_ref_pic_sets: u8,
    pub num_long_term_ref_pics_sps: u8,
    pub flags: u32,
}

impl SeqParamSet {
    /// The limits that a parsed set always meets.
    pub open spec fn wf(&self) -> bool {
        &&& self.log2_max_pic_order_cnt_lsb_minus4 <= 12
        &&& self.num_short_term_ref_pic_sets <= 64
        &&& self.num_long_term_ref_pics_sps <= 32
    }

    /// Whether every bit of `flag` is set.
    pub fn contains(&self, flag: u32) -> (r: bool)
        ensures
            r == (self.flags & flag == flag),
    {
        self.flags & flag == flag
    }
}

/// `n` pairs of an Exp-Golomb code and a flag from bit `p`: whether any of
/// the flags is set, and where the pairs end.
pub open spec fn code_flag_pairs(d: Seq<u8>, p: int, n: nat) -> Result<(bool, int), Error>
    decreases n,
{
    if n == 0 {
        Ok((false, p))
    } else {
        match uvlc_spec(d, p) {
            Err(e) => Err(e),
            Ok((_, q)) => if q + 1 > 8 * d.len() {
                Err(Error::Eof)
            } else {
                match code_flag_pairs(d, q + 1, (n - 1) as nat) {
                    Err(e) => Err(e),
                    Ok((any, end)) => Ok((bit_at(d, q) || any, end)),
                }
            },
        }
    }
}

/// Where `short_term_ref_pic_set(idx)` at bit `p` ends: from the second set
/// on, a prediction flag (set means unsupported); then the negative and
/// positive picture counts and one code and flag per picture.
pub open spec fn st_ref_pic_set_spec(d: Seq<u8>, p: int, idx: nat) -> Result<int, Error> {
    let start = if idx == 0 {
        Ok(p)
    } else if p + 1 > 8 * d.len() {
        Err(Error::Eof)
    } else if bit_at(d, p) {
        Err(Error::Unsupported)
    } else {
        Ok(p + 1)
    };
    match start {
        Err(e) => Err(e),
        Ok(q) => match uvlc_spec(d, q) {
            Err(e) => Err(e),
            Ok((negative, q1)) => match uvlc_spec(d, q1) {
                Err(e) => Err(e),
                Ok((positive, q2)) => match code_flag_pairs(d, q2, negative) {
                    Err(e) => Err(e),
                    Ok((_, q3)) => match code_flag_pairs(d, q3, positive) {
                        Err(e) => Err(e),
                        Ok((_, q4)) => Ok(q4),
                    },
                },
            },
        },
    }
}

/// Where the short-term reference picture sets `i` to `n - 1`, from bit `p`,
/// end.
pub open spec fn st_ref_pic_sets_spec(d: Seq<u8>, p: int, i: nat, n: nat) -> Result<int, Error>
    decreases n - i,
{
    if i >= n {
        Ok(p)
    } else {
        match st_ref_pic_set_spec(d, p, i) {
            Err(e) => Err(e),
            Ok(q) => st_ref_pic_sets_spec(d, q, i + 1, n),
        }
    }
}

/// The first part of a sequence parameter set at bit `p`: ids, sub-layer
/// count, profile, tier and level, picture format, conformance window, bit
/// depths, the picture order count width (at most 12 past 4) and the
/// sub-layer ordering info (for every sub-layer, or only the last). The
/// flags, that width, and where the part ends.
pub open spec fn sps_head_spec(d: Seq<u8>, p: int) -> Result<(u32, nat, int), Error> {
    let n = 8 * d.len();
    if p + 8 > n {
        Err(Error::Eof)
    } else {
        let max_sub_layers_minus1 = bits_value(d, p + 4, 3);
        let f = with_flag(0, bit_at(d, p + 7), SPS_TEMPORAL_ID_NESTING);
        match ptl_end(d, p + 8, max_sub_layers_minus1) {
            None => Err(Error::Eof),
            Some(p1) => match uvlc_spec(d, p1) {
                Err(e) => Err(e),
                Ok((_, p2)) => match uvlc_spec(d, p2) {
                    Err(e) => Err(e),
                    Ok((chroma_format_idc, p3)) => {
                        let colour = if chroma_format_idc != 3 {
                            Ok((f, p3))
                        } else if p3 + 1 > n {
                            Err(Error::Eof)
                        } else {
                            Ok((with_flag(f, bit_at(d, p3), SEPARATE_COLOUR_PLANE), p3 + 1))
                        };
                        match colour {
                            Err(e) => Err(e),
                            Ok((f, p4)) => match skip_uvlcs(d, p4, 2) {
                                Err(e) => Err(e),
                                Ok(p5) => if p5 + 1 > n {
                                    Err(Error::Eof)
                                } else {
                                    let f = with_flag(f, bit_at(d, p5), CONFORMANCE_WINDOW);
                                    let window = if bit_at(d, p5) {
                                        skip_uvlcs(d, p5 + 1, 4)
                                    } else {
                                        Ok(p5 + 1)
                                    };
                                    match window {
                                        Err(e) => Err(e),
                                        Ok(p6) => match skip_uvlcs(d, p6, 2) {
                                            Err(e) => Err(e),
                                            Ok(p7) => match uvlc_spec(d, p7) {
                                                Err(e) => Err(e),
                                                Ok((log2, p8)) => if log2 > 12 {
                                                    Err(Error::Range)
                                                } else if p8 + 1 > n {
                                                    Err(Error::Eof)
                                                } else {
                                                    let f = with_flag(
                                                        f,
                                                        bit_at(d, p8),
                                                        SPS_SUB_LAYER_ORDERING_INFO_PRESENT,
                                                    );
                                                    let ordering = if bit_at(d, p8) {
                                                        skip_uvlcs(
                                                            d,
                                                            p8 + 1,
                                                            3 * (max_sub_layers_minus1 + 1),
                                                        )
                                                    } else {
                                                        skip_uvlcs(d, p8 + 1, 3)
                                                    };
                                                    match ordering {
                                                        Err(e) => Err(e),
                                                        Ok(p9) => Ok((f, log2, p9)),
                                                    }
                                                },
                                            },
                                        },
                                    }
                                },
                            },
                        }
                    },
                },
            },
        }
    }
}

/// The coding tools part of a sequence parameter set at bit `p`: block and
/// transform sizes, scaling lists (data present means unsupported), AMP,
/// SAO, PCM, and the short-term reference picture sets (at most 64). The
/// flags, the set count, and where the part ends.
pub open spec fn sps_coding_spec(d: Seq<u8>, p: int, f: u32) -> Result<(u32, nat, int), Error> {
    let n = 8 * d.len();
    match skip_uvlcs(d, p, 6) {
        Err(e) => Err(e),
        Ok(q1) => if q1 + 1 > n {
            Err(Error::Eof)
        } else {
            let f = with_flag(f, bit_at(d, q1), SCALING_LIST_ENABLED);
            let scaling = if !bit_at(d, q1) {
                Ok(q1 + 1)
            } else if q1 + 2 > n {
                Err(Error::Eof)
            } else if bit_at(d, q1 + 1) {
                Err(Error::Unsupported)
            } else {
                Ok(q1 + 2)
            };
            match scaling {
                Err(e) => Err(e),
                Ok(q2) => if q2 + 3 > n {
                    Err(Error::Eof)
                } else {
                    let f = with_flag(f, bit_at(d, q2), AMP_ENABLED);
                    let f = with_flag(f, bit_at(d, q2 + 1), SAMPLE_ADAPTIVE_OFFSET_ENABLED);
                    let f = with_flag(f, bit_at(d, q2 + 2), PCM_ENABLED);
                    let pcm = if !bit_at(d, q2 + 2) {
                        Ok((f, q2 + 3))
                    } else if q2 + 11 > n {
                        Err(Error::Eof)
                    } else {
                        match skip_uvlcs(d, q2 + 11, 2) {
                            Err(e) => Err(e),
                            Ok(q) => if q + 1 > n {
                                Err(Error::Eof)
                            } else {
                                Ok((with_flag(f, bit_at(d, q), PCM_LOOP_FILTER_DISABLED), q + 1))
                            },
                        }
                    };
                    match pcm {
                        Err(e) => Err(e),
                        Ok((f, q3)) => match uvlc_spec(d, q3) {
                            Err(e) => Err(e),
                            Ok((sets, q4)) => if sets > 64 {
                                Err(Error::Range)
                            } else {
                                match st_ref_pic_sets_spec(d, q4, 0, sets) {
                                    Err(e) => Err(e),
                                    Ok(q5) => Ok((f, sets, q5)),
                                }
                            },
                        },
                    }
                },
            }
        },
    }
}

/// Where the aspect ratio part of `vui_parameters()` at bit `p` ends: a
/// flag, then a code, then an explicit ratio when the code is 255.
pub open spec fn vui_aspect_spec(d: Seq<u8>, p: int) -> Result<int, Error> {
    let n = 8 * d.len();
    if p + 1 > n {
        Err(Error::Eof)
    } else if !bit_at(d, p) {
        Ok(p + 1)
    } else if p + 9 > n {
        Err(Error::Eof)
    } else if bits_value(d, p + 1, 8) == EXTENDED_SAR {
        if p + 41 > n {
            Err(Error::Eof)
        } else {
            Ok(p + 41)
        }
    } else {
        Ok(p + 9)
    }
}

/// Where the video signal type part of `vui_parameters()` at bit `p` ends:
/// a flag, then format, range and a colour description flag, then the colour
/// description.
pub open spec fn vui_signal_spec(d: Seq<u8>, p: int) -> Result<int, Error> {
    let n = 8 * d.len();
    if p + 1 > n {
        Err(Error::Eof)
    } else if !bit_at(d, p) {
        Ok(p + 1)
    } else if p + 6 > n {
        Err(Error::Eof)
    } else if !bit_at(d, p + 5) {
        Ok(p + 6)
    } else if p + 30 > n {
        Err(Error::Eof)
    } else {
        Ok(p + 30)
    }
}

/// Where the optional parts of `vui_parameters()` before the three plain
/// flags end: aspect ratio, overscan, video signal type and chroma location.
pub open spec fn vui_head_spec(d: Seq<u8>, p: int) -> Result<int, Error> {
    let n = 8 * d.len();
    match vui_aspect_spec(d, p) {
        Err(e) => Err(e),
        Ok(q1) => {
            let overscan = if q1 + 1 > n {
                Err(Error::Eof)
            } else if !bit_at(d, q1) {
                Ok(q1 + 1)
            } else if q1 + 2 > n {
                Err(Error::Eof)
            } else {
                Ok(q1 + 2)
            };
            match overscan {
                Err(e) => Err(e),
                Ok(q2) => match vui_signal_spec(d, q2) {
                    Err(e) => Err(e),
                    Ok(q3) => if q3 + 1 > n {
                        Err(Error::Eof)
                    } else if bit_at(d, q3) {
                        skip_uvlcs(d, q3 + 1, 2)
                    } else {
                        Ok(q3 + 1)
                    },
                },
            }
        },
    }
}

/// Where the timing part of `vui_parameters()` at bit `p` ends: a flag,
/// then two 32-bit fields, an optional code, and the HRD flag (set means
/// unsupported).
pub open spec fn vui_timing_spec(d: Seq<u8>, p: int) -> Result<int, Error> {
    let n = 8 * d.len();
    if p + 1 > n {
        Err(Error::Eof)
    } else if !bit_at(d, p) {
        Ok(p + 1)
    } else if p + 66 > n {
        Err(Error::Eof)
    } else {
        let poc = if bit_at(d, p + 65) {
            skip_uvlcs(d, p + 66, 1)
        } else {
            Ok(p + 66)
        };
        match poc {
            Err(e) => Err(e),
            Ok(q) => if q + 1 > n {
                Err(Error::Eof)
            } else if bit_at(d, q) {
                Err(Error::Unsupported)
            } else {
                Ok(q + 1)
            },
        }
    }
}

/// Where the rest of `vui_parameters()` ends, from the three plain flags on:
/// default display window, timing and bitstream restrictions.
pub open spec fn vui_tail_spec(d: Seq<u8>, p: int) -> Result<int, Error> {
    let n = 8 * d.len();
    if p + 4 > n {
        Err(Error::Eof)
    } else {
        let window = if bit_at(d, p + 3) {
            skip_uvlcs(d, p + 4, 4)
        } else {
            Ok(p + 4)
        };
        match window {
            Err(e) => Err(e),
            Ok(q1) => match vui_timing_spec(d, q1) {
                Err(e) => Err(e),
                Ok(q2) => if q2 + 1 > n {
                    Err(Error::Eof)
                } else if !bit_at(d, q2) {
                    Ok(q2 + 1)
                } else if q2 + 4 > n {
                    Err(Error::Eof)
                } else {
                    skip_uvlcs(d, q2 + 4, 5)
                },
            },
        }
    }
}

/// Where `vui_parameters()` at bit `p` ends.
pub open spec fn vui_spec(d: Seq<u8>, p: int) -> Result<int, Error> {
    match vui_head_spec(d, p) {
        Err(e) => Err(e),
        Ok(q) => vui_tail_spec(d, q),
    }
}

/// `n` pairs of a `width`-bit field and a flag from bit `p`: whether any of
/// the flags is set, and where the pairs end.
pub open spec fn field_flag_pairs(d: Seq<u8>, p: int, n: nat, width: nat) -> Result<
    (bool, int),
    Error,
>
    decreases n,
{
    if n == 0 {
        Ok((false, p))
    } else if p + width + 1 > 8 * d.len() {
        Err(Error::Eof)
    } else {
        match field_flag_pairs(d, p + width + 1, (n - 1) as nat, width) {
            Err(e) => Err(e),
            Ok((any, end)) => Ok((bit_at(d, p + width) || any, end)),
        }
    }
}

/// The last part of a sequence parameter set at bit `p`, whose picture
/// order count LSBs are `log2 + 4` bits wide: long-term reference pictures
/// (at most 32, each an LSB field of that width and a flag), temporal MVP,
/// strong intra smoothing, VUI parameters and the extension flag (set means
/// unsupported). The flags, the long-term count, and where the part ends.
pub open spec fn sps_tail_spec(d: Seq<u8>, p: int, f: u32, log2: nat) -> Result<
    (u32, nat, int),
    Error,
> {
    let n = 8 * d.len();
    if p + 1 > n {
        Err(Error::Eof)
    } else {
        let f = with_flag(f, bit_at(d, p), LONG_TERM_REF_PICS_PRESENT);
        let long_term = if !bit_at(d, p) {
            Ok((f, 0nat, p + 1))
        } else {
            match uvlc_spec(d, p + 1) {
                Err(e) => Err(e),
                Ok((count, q)) => if count > 32 {
                    Err(Error::Range)
                } else {
                    match field_flag_pairs(d, q, count, log2 + 4) {
                        Err(e) => Err(e),
                        Ok((any, q1)) => Ok((with_flag(f, any, USED_BY_CURR_PIC_LT_SPS), count, q1)),
                    }
                },
            }
        };
        match long_term {
            Err(e) => Err(e),
            Ok((f, count, q1)) => if q1 + 3 > n {
                Err(Error::Eof)
            } else {
                let f = with_flag(f, bit_at(d, q1), SPS_TEMPORAL_MVP_ENABLED);
                let f = with_flag(f, bit_at(d, q1 + 1), STRONG_INTRA_SMOOTHING_ENABLED);
                let f = with_flag(f, bit_at(d, q1 + 2), VUI_PARAMETERS_PRESENT);
                let vui = if bit_at(d, q1 + 2) {
                    vui_spec(d, q1 + 3)
                } else {
                    Ok(q1 + 3)
                };
                match vui {
                    Err(e) => Err(e),
                    Ok(q2) => if q2 + 1 > n {
                        Err(Error::Eof)
                    } else if bit_at(d, q2) {
                        Err(Error::Unsupported)
                    } else {
                        Ok((f, count, q2 + 1))
                    },
                }
            },
        }
    }
}

/// The sequence parameter set at bit `p` of `d`, up to and including its
/// RBSP trailing bits, and where it ends; or why it cannot be read.
pub open spec fn sps_spec(d: Seq<u8>, p: int) -> Result<(SeqParamSet, int), Error> {
    match sps_head_spec(d, p) {
        Err(e) => Err(e),
        Ok((f, log2, p1)) => match sps_coding_spec(d, p1, f) {
            Err(e) => Err(e),
            Ok((f, sets, p2)) => match sps_tail_spec(d, p2, f, log2) {
                Err(e) => Err(e),
                Ok((f, long_term, p3)) => match trailing_bits_spec(d, p3) {
                    Err(e) => Err(e),
                    Ok(p4) => Ok(
                        (
                            SeqParamSet {
                                log2_max_pic_order_cnt_lsb_minus4: log2 as u8,
                                num_short_term_ref_pic_sets: sets as u8,
                                num_long_term_ref_pics_sps: long_term as u8,
                                flags: f,
                            },
                            p4,
                        ),
                    ),
                },
            },
        },
    }
}

/// Reads `n` pairs of a `width`-bit field and a flag; returns whether any
/// flag is set.
fn read_field_flag_pairs(from: &mut BitReader, n: u64, width: u8) -> (r: Result<bool, Error>)
    requires
        old(from).wf(),
        width <= 64,
    ensures
        old(from).progressed(final(from)),
        match field_flag_pairs(old(from).bytes(), old(from).pos(), n as nat, width as nat) {
            Ok((any, q)) => r == Ok::<bool, Error>(any) && final(from).pos() == q,
            Err(e) => r == Err::<bool, Error>(e),
        },
{
    let ghost d = from.bytes();
    let mut any = false;
    let mut i: u64 = 0;
    while i < n
        invariant
            old(from).progressed(from),
            d == old(from).bytes(),
            width <= 64,
            i <= n,
            field_flag_pairs(d, old(from).pos(), n as nat, width as nat) == match field_flag_pairs(
                d,
                from.pos(),
                (n - i) as nat,
                width as nat,
            ) {
                Ok((a, q)) => Ok((any || a, q)),
                Err(e) => Err(e),
            },
        decreases n - i,
    {
        if from.bits_left() < width as u64 + 1 {
            return Err(Error::Eof);
        }
        let _ = from.read_u64(width)?;
        let flag = from.read_bool()?;
        any = any || flag;
        i = i + 1;
    }
    Ok(any)
}

/// Reads `n` pairs of an Exp-Golomb code and a flag; returns whether any
/// flag is set.
fn read_code_flag_pairs(from: &mut BitReader, n: u64) -> (r: Result<bool, Error>)
    requires
        old(from).wf(),
    ensures
        old(from).progressed(final(from)),
        match code_flag_pairs(old(from).bytes(), old(from).pos(), n as nat) {
            Ok((any, q)) => r == Ok::<bool, Error>(any) && final(from).pos() == q,
            Err(e) => r == Err::<bool, Error>(e),
        },
{
    let ghost d = from.bytes();
    let mut any = false;
    let mut i: u64 = 0;
    while i < n
        invariant
            old(from).progressed(from),
            d == old(from).bytes(),
            i <= n,
            code_flag_pairs(d, old(from).pos(), n as nat) == match code_flag_pairs(
                d,
                from.pos(),
                (n - i) as nat,
            ) {
                Ok((a, q)) => Ok((any || a, q)),
                Err(e) => Err(e),
            },
        decreases n - i,
    {
        let _ = read_svlc(from)?;
        let flag = from.read_bool()?;
        any = any || flag;
        i = i + 1;
    }
    Ok(any)
}

fn sps_head(from: &mut BitReader) -> (r: Result<(u32, u64), Error>)
    requires
        old(from).wf(),
    ensures
        old(from).progressed(final(from)),
        match sps_head_spec(old(from).bytes(), old(from).pos()) {
            Ok((f, log2, q)) => r == Ok::<(u32, u64), Error>((f, log2 as u64)) && log2 <= 12
                && final(from).pos() == q,
            Err(e) => r == Err::<(u32, u64), Error>(e),
        },
{
    if from.bits_left() < 8 {
        return Err(Error::Eof);
    }
    let _sps_video_parameter_set_id = from.read_u8(4)?;
    let sps_max_sub_layers_minus1 = from.read_u8(3)?;
    proof {
        vstd::arithmetic::power2::lemma2_to64();
    }
    let flags = add_flag(0, from.read_bool()?, SPS_TEMPORAL_ID_NESTING);
    profile_tier_level(from, sps_max_sub_layers_minus1)?;
    let _sps_seq_parameter_set_id = read_uvlc(from)?;
    let chroma_format_idc = read_uvlc(from)?;
    let mut flags = flags;
    if 3 == chroma_format_idc {
        flags = add_flag(flags, from.read_bool()?, SEPARATE_COLOUR_PLANE);
    }
    skip_codes(from, 2)?;
    let conformance_window = from.read_bool()?;
    let flags = add_flag(flags, conformance_window, CONFORMANCE_WINDOW);
    if conformance_window {
        skip_codes(from, 4)?;
    }
    skip_codes(from, 2)?;
    let log2_max_pic_order_cnt_lsb_minus4 = read_uvlc(from)?;
    if log2_max_pic_order_cnt_lsb_minus4 > 12 {
        return Err(Error::Range);
    }
    let ordering_info = from.read_bool()?;
    let flags = add_flag(flags, ordering_info, SPS_SUB_LAYER_ORDERING_INFO_PRESENT);
    if ordering_info {
        skip_codes(from, 3 * (sps_max_sub_layers_minus1 as u64 + 1))?;
    } else {
        skip_codes(from, 3)?;
    }
    Ok((flags, log2_max_pic_order_cnt_lsb_minus4))
}

fn sps_coding(from: &mut BitReader, flags: u32) -> (r: Result<(u32, u64), Error>)
    requires
        old(from).wf(),
    ensures
        old(from).progressed(final(from)),
        match sps_coding_spec(old(from).bytes(), old(from).pos(), flags) {
            Ok((f, sets, q)) => r == Ok::<(u32, u64), Error>((f, sets as u64)) && sets <= 64
                && final(from).pos() == q,
            Err(e) => r == Err::<(u32, u64), Error>(e),
        },
{
    let ghost flags0 = flags;
    skip_codes(from, 6)?;
    let scaling_list_enabled = from.read_bool()?;
    let flags = add_flag(flags, scaling_list_enabled, SCALING_LIST_ENABLED);
    if scaling_list_enabled {
        if from.read_bool()? {
            return Err(Error::Unsupported);
        }
    }
    if from.bits_left() < 3 {
        return Err(Error::Eof);
    }
    let flags = add_flag(flags, from.read_bool()?, AMP_ENABLED);
    let flags = add_flag(flags, from.read_bool()?, SAMPLE_ADAPTIVE_OFFSET_ENABLED);
    let pcm_enabled = from.read_bool()?;
    let mut flags = add_flag(flags, pcm_enabled, PCM_ENABLED);
    if pcm_enabled {
        if from.bits_left() < 8 {
            return Err(Error::Eof);
        }
        let _pcm_sample_bit_depth_luma_minus1 = from.read_u8(4)?;
        let _pcm_sample_bit_depth_chroma_minus1 = from.read_u8(4)?;
        skip_codes(from, 2)?;
        flags = add_flag(flags, from.read_bool()?, PCM_LOOP_FILTER_DISABLED);
    }
    let num_short_term_ref_pic_sets = read_uvlc(from)?;
    if num_short_term_ref_pic_sets > 64 {
        return Err(Error::Range);
    }
    let ghost d = from.bytes();
    let ghost q4 = from.pos();
    let mut i: u64 = 0;
    while i < num_short_term_ref_pic_sets
        invariant
            old(from).progressed(from),
            d == old(from).bytes(),
            i <= num_short_term_ref_pic_sets <= 64,
            st_ref_pic_sets_spec(d, q4, 0, num_short_term_ref_pic_sets as nat)
                == st_ref_pic_sets_spec(d, from.pos(), i as nat, num_short_term_ref_pic_sets as nat),
            sps_coding_spec(d, old(from).pos(), flags0) == match st_ref_pic_sets_spec(
                d,
                q4,
                0,
                num_short_term_ref_pic_sets as nat,
            ) {
                Err(e) => Err(e),
                Ok(q5) => Ok((flags, num_short_term_ref_pic_sets as nat, q5)),
            },
        decreases num_short_term_ref_pic_sets - i,
    {
        short_term_ref_pic_set(from, i)?;
        i = i + 1;
    }
    Ok((flags, num_short_term_ref_pic_sets))
}

fn sps_tail(from: &mut BitReader, flags: u32, log2: u64) -> (r: Result<(u32, u64), Error>)
    requires
        old(from).wf(),
        log2 <= 12,
    ensures
        old(from).progressed(final(from)),
        match sps_tail_spec(old(from).bytes(), old(from).pos(), flags, log2 as nat) {
            Ok((f, count, q)) => r == Ok::<(u32, u64), Error>((f, count as u64)) && count <= 32
                && final(from).pos() == q,
            Err(e) => r == Err::<(u32, u64), Error>(e),
        },
{
    let long_term = from.read_bool()?;
    let mut flags = add_flag(flags, long_term, LONG_TERM_REF_PICS_PRESENT);
    let mut num_long_term_ref_pics_sps: u64 = 0;
    if long_term {
        num_long_term_ref_pics_sps = read_uvlc(from)?;
        if num_long_term_ref_pics_sps > 32 {
            return Err(Error::Range);
        }
        let any_used = read_field_flag_pairs(
            from,
            num_long_term_ref_pics_sps,
            (log2 + 4) as u8,
        )?;
        flags = add_flag(flags, any_used, USED_BY_CURR_PIC_LT_SPS);
    }
    if from.bits_left() < 3 {
        return Err(Error::Eof);
    }
    let flags = add_flag(flags, from.read_bool()?, SPS_TEMPORAL_MVP_ENABLED);
    let flags = add_flag(flags, from.read_bool()?, STRONG_INTRA_SMOOTHING_ENABLED);
    let vui_present = from.read_bool()?;
    let flags = add_flag(flags, vui_present, VUI_PARAMETERS_PRESENT);
    if vui_present {
        vui_parameters(from)?;
    }
    if from.read_bool()? {
        return Err(Error::Unsupported);
    }
    Ok((flags, num_long_term_ref_pics_sps))
}

/// Parses a sequence parameter set from an unescaped payload, up to and
/// including its RBSP trailing bits. Scaling list data, inter-predicted
/// short-term reference picture sets, HRD parameters and extensions are
/// refused as unsupported.
pub fn seq_parameter_set(from: &mut BitReader) -> (r: Result<SeqParamSet, Error>)
    requires
        old(from).wf(),
    ensures
        old(from).progressed(final(from)),
        match sps_spec(old(from).bytes(), old(from).pos()) {
            Ok((set, q)) => r == Ok::<SeqParamSet, Error>(set) && final(from).pos() == q,
            Err(e) => r == Err::<SeqParamSet, Error>(e),
        },
        r is Ok ==> r->Ok_0.wf(),
        r is Ok ==> final(from).pos() % 8 == 0,
{
    let (flags, log2) = sps_head(from)?;
    let (flags, sets) = sps_coding(from, flags)?;
    let (flags, long_term) = sps_tail(from, flags, log2)?;
    rbsp_trailing_bits(from)?;
    Ok(
        SeqParamSet {
            log2_max_pic_order_cnt_lsb_minus4: log2 as u8,
            num_short_term_ref_pic_sets: sets as u8,
            num_long_term_ref_pics_sps: long_term as u8,
            flags,
        },
    )
}

/// The aspect ratio code that announces an explicit sample aspect ratio.
pub const EXTENDED_SAR: u8 = 255;

fn vui_aspect(from: &mut BitReader) -> (r: Result<(), Error>)
    requires
        old(from).wf(),
    ensures
        old(from).progressed(final(from)),
        match vui_aspect_spec(old(from).bytes(), old(from).pos()) {
            Ok(q) => r == Ok::<(), Error>(()) && final(from).pos() == q,
            Err(e) => r == Err::<(), Error>(e),
        },
{
    if from.read_bool()? {
        let aspect_ratio_idc = from.read_u8(8)?;
        proof {
            vstd::arithmetic::power2::lemma2_to64();
        }
        if aspect_ratio_idc == EXTENDED_SAR {
            if from.bits_left() < 32 {
                return Err(Error::Eof);
            }
            let _sar_width = from.read_u16(16)?;
            let _sar_height = from.read_u16(16)?;
        }
    }
    Ok(())
}

fn vui_signal(from: &mut BitReader) -> (r: Result<(), Error>)
    requires
        old(from).wf(),
    ensures
        old(from).progressed(final(from)),
        match vui_signal_spec(old(from).bytes(), old(from).pos()) {
            Ok(q) => r == Ok::<(), Error>(()) && final(from).pos() == q,
            Err(e) => r == Err::<(), Error>(e),
        },
{
    if from.read_bool()? {
        if from.bits_left() < 5 {
            return Err(Error::Eof);
        }
        let _video_format = from.read_u8(3)?;
        let _video_full_range_flag = from.read_bool()?;
        if from.read_bool()? {
            if from.bits_left() < 24 {
                return Err(Error::Eof);
            }
            let _colour_primaries = from.read_u8(8)?;
            let _transfer_characteristics = from.read_u8(8)?;
            let _matrix_coeffs = from.read_u8(8)?;
        }
    }
    Ok(())
}

fn vui_head(from: &mut BitReader) -> (r: Result<(), Error>)
    requires
        old(from).wf(),
    ensures
        old(from).progressed(final(from)),
        match vui_head_spec(old(from).bytes(), old(from).pos()) {
            Ok(q) => r == Ok::<(), Error>(()) && final(from).pos() == q,
            Err(e) => r == Err::<(), Error>(e),
        },
{
    vui_aspect(from)?;
    if from.read_bool()? {
        let _overscan_appropriate_flag = from.read_bool()?;
    }
    vui_signal(from)?;
    if from.read_bool()? {
        skip_codes(from, 2)?;
    }
    Ok(())
}

fn vui_timing(from: &mut BitReader) -> (r: Result<(), Error>)
    requires
        old(from).wf(),
    ensures
        old(from).progressed(final(from)),
        match vui_timing_spec(old(from).bytes(), old(from).pos()) {
            Ok(q) => r == Ok::<(), Error>(()) && final(from).pos() == q,
            Err(e) => r == Err::<(), Error>(e),
        },
{
    if from.read_bool()? {
        if from.bits_left() < 65 {
            return Err(Error::Eof);
        }
        let _vui_num_units_in_tick = from.read_u32(32)?;
        let _vui_time_scale = from.read_u32(32)?;
        if from.read_bool()? {
            skip_codes(from, 1)?;
        }
        if from.read_bool()? {
            return Err(Error::Unsupported);
        }
    }
    Ok(())
}

fn vui_tail(from: &mut BitReader) -> (r: Result<(), Error>)
    requires
        old(from).wf(),
    ensures
        old(from).progressed(final(from)),
        match vui_tail_spec(old(from).bytes(), old(from).pos()) {
            Ok(q) => r == Ok::<(), Error>(()) && final(from).pos() == q,
            Err(e) => r == Err::<(), Error>(e),
        },
{
    if from.bits_left() < 4 {
        return Err(Error::Eof);
    }
    let _neutral_chroma_indication_flag = from.read_bool()?;
    let _field_seq_flag = from.read_bool()?;
    let _frame_field_info_present_flag = from.read_bool()?;
    if from.read_bool()? {
        skip_codes(from, 4)?;
    }
    vui_timing(from)?;
    if from.read_bool()? {
        if from.bits_left() < 3 {
            return Err(Error::Eof);
        }
        let _tiles_fixed_structure_flag = from.read_bool()?;
        let _motion_vectors_over_pic_boundaries_flag = from.read_bool()?;
        let _restricted_ref_pic_lists_flag = from.read_bool()?;
        skip_codes(from, 5)?;
    }
    Ok(())
}

/// Parses `vui_parameters()`; HRD parameters are refused as unsupported.
fn vui_parameters(from: &mut BitReader) -> (r: Result<(), Error>)
    requires
        old(from).wf(),
    ensures
        old(from).progressed(final(from)),
        match vui_spec(old(from).bytes(), old(from).pos()) {
            Ok(q) => r == Ok::<(), Error>(()) && final(from).pos() == q,
            Err(e) => r == Err::<(), Error>(e),
        },
{
    vui_head(from)?;
    vui_tail(from)
}

/// Parses `short_term_ref_pic_set(st_rps_idx)`. Sets predicted from another
/// set (possible from the second set on) are refused as unsupported.
fn short_term_ref_pic_set(from: &mut BitReader, st_rps_idx: u64) -> (r: Result<(), Error>)
    requires
        old(from).wf(),
    ensures
        old(from).progressed(final(from)),
        match st_ref_pic_set_spec(old(from).bytes(), old(from).pos(), st_rps_idx as nat) {
            Ok(q) => r == Ok::<(), Error>(()) && final(from).pos() == q,
            Err(e) => r == Err::<(), Error>(e),
        },
{
    let inter_ref_pic_set_prediction_flag = if st_rps_idx != 0 {
        from.read_bool()?
    } else {
        false
    };
    if inter_ref_pic_set_prediction_flag {
        return Err(Error::Unsupported);
    }
    let num_negative_pics = read_uvlc(from)?;
    let num_positive_pics = read_uvlc(from)?;
    let _ = read_code_flag_pairs(from, num_negative_pics)?;
    let _ = read_code_flag_pairs(from, num_positive_pics)?;
    Ok(())
}

} // verus!
