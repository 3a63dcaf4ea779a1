use vstd::prelude::*;

use crate::bit::bit_at;
use crate::bit::bits_value;
use crate::bit::BitReader;
use crate::error::Error;
use crate::hevc::pps::skip_codes;
use crate::hevc::pps::skip_uvlcs;
use crate::hevc::rbsp_trailing_bits;
use crate::hevc::read_uvlc;
use crate::hevc::ss::fixed_fields;
use crate::hevc::trailing_bits_spec;
use crate::hevc::uvlc_spec;

verus! {

/// Flags decoded from a video parameter set.
pub const VPS_TEMPORAL_ID_NESTING: u32 = 1 << 0;

/// Where the sub-layer blocks of `profile_tier_level()` end, from the `i`-th
/// sub-layer on, starting at bit `q`, with the two presence flags of each
/// sub-layer standing at `flags_at`: 88 bits of profile and 8 bits of level
/// where their flags are set. `None` when the bits run out.
pub open spec fn sub_layers_end(d: Seq<u8>, flags_at: int, max: nat, i: nat, q: int) -> Option<int>
    decreases max - i,
{
    if i >= max {
        Some(q)
    } else {
        let q1 = q + (if bit_at(d, flags_at + 2 * i) {
            88int
        } else {
            0int
        }) + (if bit_at(d, flags_at + 2 * i + 1) {
            8int
        } else {
            0int
        });
        if q1 > 8 * d.len() {
            None
        } else {
            sub_layers_end(d, flags_at, max, i + 1, q1)
        }
    }
}

/// Where `profile_tier_level()` with `max` sub-layers past the first,
/// starting at bit `p`, ends: 96 general bits, two flags per such sub-layer,
/// when there is any, two reserved bits for each of the remaining slots up to
/// eight, then the sub-layer blocks. `None` when the bits run out.
pub open spec fn ptl_end(d: Seq<u8>, p: int, max: nat) -> Option<int> {
    let q = p + 96 + 2 * max + if max > 0 {
        2 * (8 - max)
    } else {
        0int
    };
    if q > 8 * d.len() {
        None
    } else {
        sub_layers_end(d, p + 96, max, 0, q)
    }
}

/// The part of a video parameter set after `profile_tier_level()`, at bit
/// `p`, with `max` sub-layers past the first: the ordering info (for every
/// sub-layer, or only the last), the maximum layer id, the layer sets (one
/// flag per layer id each), the timing info (HRD parameters are unsupported)
/// and the extension flag (set means unsupported). Where it ends.
pub open spec fn vps_rest_spec(d: Seq<u8>, p: int, max: nat) -> Result<int, Error> {
    let n = 8 * d.len();
    if p + 1 > n {
        Err(Error::Eof)
    } else {
        let count: nat = if bit_at(d, p) {
            max + 1
        } else {
            1
        };
        match skip_uvlcs(d, p + 1, 3 * count) {
            Err(e) => Err(e),
            Ok(q1) => if q1 + 6 > n {
                Err(Error::Eof)
            } else {
                match uvlc_spec(d, q1 + 6) {
                    Err(e) => Err(e),
                    Ok((sets, q2)) => match fixed_fields(d, q2, sets, bits_value(d, q1, 6) + 1) {
                        Err(e) => Err(e),
                        Ok(q3) => vps_tail_spec(d, q3),
                    },
                }
            },
        }
    }
}

/// The timing info of a video parameter set at bit `p` (HRD parameters are
/// unsupported) and its extension flag (set means unsupported). Where they end.
pub open spec fn vps_tail_spec(d: Seq<u8>, p: int) -> Result<int, Error> {
    let n = 8 * d.len();
    let timing = if p + 1 > n {
        Err(Error::Eof)
    } else if !bit_at(d, p) {
        Ok(p + 1)
    } else if p + 66 > n {
        Err(Error::Eof)
    } else {
        let poc = if bit_at(d, p + 65) {
            skip_uvlcs(d, p + 66, 1)
        } else {
            Ok(p + 66)
        };
        match poc {
            Err(e) => Err(e),
            Ok(q) => match uvlc_spec(d, q) {
                Err(e) => Err(e),
                Ok((hrd, q4)) => if hrd > 0 {
                    Err(Error::Unsupported)
                } else {
                    Ok(q4)
                },
            },
        }
    };
    match timing {
        Err(e) => Err(e),
        Ok(q4) => if q4 + 1 > n {
            Err(Error::Eof)
        } else if bit_at(d, q4) {
            Err(Error::Unsupported)
        } else {
            Ok(q4 + 1)
        },
    }
}

/// What a video parameter set at bit `p` decodes to, and where it ends: a
/// 4-bit id, two base layer flags, the 6-bit maximum layer count less one,
/// the 3-bit maximum sub-layer count less one, the temporal id nesting flag,
/// 16 reserved bits, `profile_tier_level()`, the rest of the set, and the
/// RBSP trailing bits.
pub open spec fn vps_spec(d: Seq<u8>, p: int) -> Result<(u32, int), Error> {
    if p + 32 > 8 * d.len() {
        Err(Error::Eof)
    } else {
        let max = bits_value(d, p + 12, 3);
        match ptl_end(d, p + 32, max) {
            None => Err(Error::Eof),
            Some(p1) => match vps_rest_spec(d, p1, max) {
                Err(e) => Err(e),
                Ok(p2) => match trailing_bits_spec(d, p2) {
                    Err(e) => Err(e),
                    Ok(p3) => Ok(
                        (
                            if bit_at(d, p + 15) {
                                VPS_TEMPORAL_ID_NESTING
                            } else {
                                0
                            },
                            p3,
                        ),
                    ),
                },
            },
        }
    }
}

fn vps_rest(from: &mut BitReader, max: u8) -> (r: Result<(), Error>)
    requires
        old(from).wf(),
        max < 8,
    ensures
        old(from).progressed(final(from)),
        match vps_rest_spec(old(from).bytes(), old(from).pos(), max as nat) {
            Ok(q) => r == Ok::<(), Error>(()) && final(from).pos() == q,
            Err(e) => r == Err::<(), Error>(e),
        },
{
    let ordering_info = from.read_bool()?;
    let count: u64 = if ordering_info {
        max as u64 + 1
    } else {
        1
    };
    skip_codes(from, 3 * count)?;
    let max_layer_id = from.read_u8(6)?;
    proof {
        vstd::arithmetic::power2::lemma2_to64();
    }
    let num_layer_sets_minus1 = read_uvlc(from)?;
    let ghost d = from.bytes();
    let ghost q2 = from.pos();
    let width = max_layer_id + 1;
    let mut i: u64 = 0;
    while i < num_layer_sets_minus1
        invariant
            old(from).progressed(from),
            d == old(from).bytes(),
            width <= 64,
            i <= num_layer_sets_minus1,
            vps_rest_spec(d, old(from).pos(), max as nat) == match fixed_fields(
                d,
                from.pos(),
                (num_layer_sets_minus1 - i) as nat,
                width as nat,
            ) {
                Err(e) => Err(e),
                Ok(q3) => vps_tail_spec(d, q3),
            },
            fixed_fields(d, q2, num_layer_sets_minus1 as nat, width as nat) == fixed_fields(
                d,
                from.pos(),
                (num_layer_sets_minus1 - i) as nat,
                width as nat,
            ),
        decreases num_layer_sets_minus1 - i,
    {
        let _layer_id_included_flags = from.read_u64(width)?;
        i = i + 1;
    }
    if from.read_bool()? {
        if from.bits_left() < 65 {
            return Err(Error::Eof);
        }
        let _vps_num_units_in_tick = from.read_u32(32)?;
        let _vps_time_scale = from.read_u32(32)?;
        if from.read_bool()? {
            skip_codes(from, 1)?;
        }
        let vps_num_hrd_parameters = read_uvlc(from)?;
        if vps_num_hrd_parameters > 0 {
            return Err(Error::Unsupported);
        }
    }
    if from.read_bool()? {
        return Err(Error::Unsupported);
    }
    Ok(())
}

/// Parses a video parameter set from an unescaped payload, up to and
/// including its RBSP trailing bits. HRD parameters and extensions are
/// refused as unsupported. Returns the flags it decoded.
pub fn video_parameter_set(from: &mut BitReader) -> (r: Result<u32, Error>)
    requires
        old(from).wf(),
    ensures
        old(from).progressed(final(from)),
        match vps_spec(old(from).bytes(), old(from).pos()) {
            Ok((flags, e)) => r == Ok::<u32, Error>(flags) && final(from).pos() == e,
            Err(err) => r == Err::<u32, Error>(err),
        },
        r is Ok ==> final(from).pos() % 8 == 0,
{
    if from.bits_left() < 32 {
        return Err(Error::Eof);
    }
    let _vps_id = from.read_u8(4)?;
    let _base_layer_internal = from.read_bool()?;
    let _base_layer_available = from.read_bool()?;
    let _max_layers_minus_1 = from.read_u8(6)?;
    let max_sub_layers_minus_1 = from.read_u8(3)?;
    proof {
        vstd::arithmetic::power2::lemma2_to64();
    }
    let flags = if from.read_bool()? {
        VPS_TEMPORAL_ID_NESTING
    } else {
        0
    };
    let _reserved = from.read_u16(16)?;
    profile_tier_level(from, max_sub_layers_minus_1)?;
    vps_rest(from, max_sub_layers_minus_1)?;
    rbsp_trailing_bits(from)?;
    Ok(flags)
}

/// Parses `profile_tier_level()` with `max_sub_layers` sub-layers past the
/// first: 96 bits of general profile, tier and level, two presence flags per
/// such sub-layer, two reserved bits for each remaining slot up to eight when
/// there is any, then each sub-layer's profile (88 bits) and level (8 bits)
/// where its flags say they are present.
pub fn profile_tier_level(from: &mut BitReader, max_sub_layers: u8) -> (r: Result<(), Error>)
    requires
        old(from).wf(),
        max_sub_layers < 8,
    ensures
        old(from).progressed(final(from)),
        match ptl_end(old(from).bytes(), old(from).pos(), max_sub_layers as nat) {
            Some(e) => r == Ok::<(), Error>(()) && final(from).pos() == e,
            None => r == Err::<(), Error>(Error::Eof),
        },
{
    let ghost d = from.bytes();
    let ghost p = from.pos();
    let _general_profile_space = from.read_u8(2)?;
    let _general_tier_flag = from.read_bool()?;
    let _general_profile_idc = from.read_u8(5)?;
    let _general_profile_compatibility_flags = from.read_u32(32)?;
    let _general_progressive_source_flag = from.read_bool()?;
    let _general_interlaced_source_flag = from.read_bool()?;
    let _general_non_packed_constraint_flag = from.read_bool()?;
    let _general_frame_only_constraint_flag = from.read_bool()?;
    let _reserved = from.read_u64(44)?;
    let _general_level_idc = from.read_u8(8)?;

    let mut sub_layer_profile_present_flag: Vec<bool> = Vec::new();
    let mut sub_layer_level_present_flag: Vec<bool> = Vec::new();
    let mut i: u8 = 0;
    while i < max_sub_layers
        invariant
            old(from).progressed(from),
            d == old(from).bytes(),
            p == old(from).pos(),
            i <= max_sub_layers < 8,
            from.pos() == p + 96 + 2 * i,
            sub_layer_profile_present_flag@.len() == i,
            sub_layer_level_present_flag@.len() == i,
            forall|j: int|
                0 <= j < i ==> #[trigger] sub_layer_profile_present_flag@[j] == bit_at(
                    d,
                    p + 96 + 2 * j,
                ),
            forall|j: int|
                0 <= j < i ==> #[trigger] sub_layer_level_present_flag@[j] == bit_at(
                    d,
                    p + 96 + 2 * j + 1,
                ),
        decreases max_sub_layers - i,
    {
        sub_layer_profile_present_flag.push(from.read_bool()?);
        sub_layer_level_present_flag.push(from.read_bool()?);
        i = i + 1;
    }
    if max_sub_layers > 0 {
        let _reserved = from.read_u16(2 * (8 - max_sub_layers))?;
    }
    let mut i: u8 = 0;
    while i < max_sub_layers
        invariant
            old(from).progressed(from),
            d == old(from).bytes(),
            p == old(from).pos(),
            i <= max_sub_layers,
            sub_layer_profile_present_flag@.len() == max_sub_layers,
            sub_layer_level_present_flag@.len() == max_sub_layers,
            forall|j: int|
                0 <= j < max_sub_layers ==> #[trigger] sub_layer_profile_present_flag@[j]
                    == bit_at(d, p + 96 + 2 * j),
            forall|j: int|
                0 <= j < max_sub_layers ==> #[trigger] sub_layer_level_present_flag@[j]
                    == bit_at(d, p + 96 + 2 * j + 1),
            ptl_end(d, p, max_sub_layers as nat) == sub_layers_end(
                d,
                p + 96,
                max_sub_layers as nat,
                i as nat,
                from.pos(),
            ),
        decreases max_sub_layers - i,
    {
        let ghost q = from.pos();
        if sub_layer_profile_present_flag[i as usize] {
            let _sub_layer_profile_space = from.read_u8(2)?;
            let _sub_layer_tier_flag = from.read_bool()?;
            let _sub_layer_profile_idc = from.read_u8(5)?;
            let _sub_layer_profile_compatibility_flags = from.read_u32(32)?;
            let _sub_layer_progressive_source_flag = from.read_bool()?;
            let _sub_layer_interlaced_source_flag = from.read_bool()?;
            let _sub_layer_non_packed_constraint_flag = from.read_bool()?;
            let _sub_layer_frame_only_constraint_flag = from.read_bool()?;
            let _sub_layer_reserved_zero_44bits = from.read_u64(44)?;
        }
        if sub_layer_level_present_flag[i as usize] {
            let _sub_layer_level_idc = from.read_u8(8)?;
        }
        i = i + 1;
    }

    Ok(())
}

} // verus!
