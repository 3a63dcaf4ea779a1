use vstd::prelude::*;

verus! {

/// Marks a context that a slice type never uses.
pub const CNU: u8 = 154;

/// Initial context values for the cu_transquant_bypass flag, by slice type (0 for B,
/// 1 for P, 2 for I).
pub fn init_cu_transquant_bypass_flag(slice_type: u8) -> (r: Vec<u8>)
    requires
        slice_type < 3,
    ensures
        slice_type == 0 ==> r@ == seq![154u8],
        slice_type == 1 ==> r@ == seq![154u8],
        slice_type == 2 ==> r@ == seq![154u8],
{
    if slice_type == 0 {
        vec![154u8]
    } else if slice_type == 1 {
        vec![154u8]
    } else {
        vec![154u8]
    }
}

/// Initial context values for the split flag, by slice type (0 for B,
/// 1 for P, 2 for I).
pub fn init_split_flag(slice_type: u8) -> (r: Vec<u8>)
    requires
        slice_type < 3,
    ensures
        slice_type == 0 ==> r@ == seq![107u8, 139, 126],
        slice_type == 1 ==> r@ == seq![107u8, 139, 126],
        slice_type == 2 ==> r@ == seq![139u8, 141, 157],
{
    if slice_type == 0 {
        vec![107u8, 139, 126]
    } else if slice_type == 1 {
        vec![107u8, 139, 126]
    } else {
        vec![139u8, 141, 157]
    }
}

/// Initial context values for the skip flag, by slice type (0 for B,
/// 1 for P, 2 for I).
pub fn init_skip_flag(slice_type: u8) -> (r: Vec<u8>)
    requires
        slice_type < 3,
    ensures
        slice_type == 0 ==> r@ == seq![197u8, 185, 201],
        slice_type == 1 ==> r@ == seq![197u8, 185, 201],
        slice_type == 2 ==> r@ == seq![CNU, CNU, CNU],
{
    if slice_type == 0 {
        vec![197u8, 185, 201]
    } else if slice_type == 1 {
        vec![197u8, 185, 201]
    } else {
        vec![CNU, CNU, CNU]
    }
}

/// Initial context values for the merge flag, by slice type (0 for B,
/// 1 for P, 2 for I).
pub fn init_merge_flag_ext(slice_type: u8) -> (r: Vec<u8>)
    requires
        slice_type < 3,
    ensures
        slice_type == 0 ==> r@ == seq![154u8],
        slice_type == 1 ==> r@ == seq![110u8],
        slice_type == 2 ==> r@ == seq![CNU],
{
    if slice_type == 0 {
        vec![154u8]
    } else if slice_type == 1 {
        vec![110u8]
    } else {
        vec![CNU]
    }
}

/// Initial context values for the merge index, by slice type (0 for B,
/// 1 for P, 2 for I).
pub fn init_merge_idx_ext(slice_type: u8) -> (r: Vec<u8>)
    requires
        slice_type < 3,
    ensures
        slice_type == 0 ==> r@ == seq![137u8],
        slice_type == 1 ==> r@ == seq![122u8],
        slice_type == 2 ==> r@ == seq![CNU],
{
    if slice_type == 0 {
        vec![137u8]
    } else if slice_type == 1 {
        vec![122u8]
    } else {
        vec![CNU]
    }
}

/// Initial context values for the partition size, by slice type (0 for B,
/// 1 for P, 2 for I).
pub fn init_part_size(slice_type: u8) -> (r: Vec<u8>)
    requires
        slice_type < 3,
    ensures
        slice_type == 0 ==> r@ == seq![154u8, 139, 154, 154],
        slice_type == 1 ==> r@ == seq![154u8, 139, 154, 154],
        slice_type == 2 ==> r@ == seq![184u8, CNU, CNU, CNU],
{
    if slice_type == 0 {
        vec![154u8, 139, 154, 154]
    } else if slice_type == 1 {
        vec![154u8, 139, 154, 154]
    } else {
        vec![184u8, CNU, CNU, CNU]
    }
}

/// Initial context values for the prediction mode, by slice type (0 for B,
/// 1 for P, 2 for I).
pub fn init_pred_mode(slice_type: u8) -> (r: Vec<u8>)
    requires
        slice_type < 3,
    ensures
        slice_type == 0 ==> r@ == seq![134u8],
        slice_type == 1 ==> r@ == seq![149u8],
        slice_type == 2 ==> r@ == seq![CNU],
{
    if slice_type == 0 {
        vec![134u8]
    } else if slice_type == 1 {
        vec![149u8]
    } else {
        vec![CNU]
    }
}

/// Initial context values for the luma intra prediction mode, by slice type (0 for B,
/// 1 for P, 2 for I).
pub fn init_intra_pred_mode(slice_type: u8) -> (r: Vec<u8>)
    requires
        slice_type < 3,
    ensures
        slice_type == 0 ==> r@ == seq![183u8],
        slice_type == 1 ==> r@ == seq![154u8],
        slice_type == 2 ==> r@ == seq![184u8],
{
    if slice_type == 0 {
        vec![183u8]
    } else if slice_type == 1 {
        vec![154u8]
    } else {
        vec![184u8]
    }
}

/// Initial context values for the chroma intra prediction mode, by slice type (0 for B,
/// 1 for P, 2 for I).
pub fn init_chroma_pred_mode(slice_type: u8) -> (r: Vec<u8>)
    requires
        slice_type < 3,
    ensures
        slice_type == 0 ==> r@ == seq![152u8, 139],
        slice_type == 1 ==> r@ == seq![152u8, 139],
        slice_type == 2 ==> r@ == seq![63u8, 139],
{
    if slice_type == 0 {
        vec![152u8, 139]
    } else if slice_type == 1 {
        vec![152u8, 139]
    } else {
        vec![63u8, 139]
    }
}

/// Initial context values for the inter prediction direction, by slice type (0 for B,
/// 1 for P, 2 for I).
pub fn init_inter_dir(slice_type: u8) -> (r: Vec<u8>)
    requires
        slice_type < 3,
    ensures
        slice_type == 0 ==> r@ == seq![95u8, 79, 63, 31, 31],
        slice_type == 1 ==> r@ == seq![95u8, 79, 63, 31, 31],
        slice_type == 2 ==> r@ == seq![CNU, CNU, CNU, CNU, CNU],
{
    if slice_type == 0 {
        vec![95u8, 79, 63, 31, 31]
    } else if slice_type == 1 {
        vec![95u8, 79, 63, 31, 31]
    } else {
        vec![CNU, CNU, CNU, CNU, CNU]
    }
}

/// Initial context values for the motion vector difference, by slice type (0 for B,
/// 1 for P, 2 for I).
pub fn init_mvd(slice_type: u8) -> (r: Vec<u8>)
    requires
        slice_type < 3,
    ensures
        slice_type == 0 ==> r@ == seq![169u8, 198],
        slice_type == 1 ==> r@ == seq![140u8, 198],
        slice_type == 2 ==> r@ == seq![CNU, CNU],
{
    if slice_type == 0 {
        vec![169u8, 198]
    } else if slice_type == 1 {
        vec![140u8, 198]
    } else {
        vec![CNU, CNU]
    }
}

/// Initial context values for the reference index, by slice type (0 for B,
/// 1 for P, 2 for I).
pub fn init_ref_pic(slice_type: u8) -> (r: Vec<u8>)
    requires
        slice_type < 3,
    ensures
        slice_type == 0 ==> r@ == seq![153u8, 153],
        slice_type == 1 ==> r@ == seq![153u8, 153],
        slice_type == 2 ==> r@ == seq![CNU, CNU],
{
    if slice_type == 0 {
        vec![153u8, 153]
    } else if slice_type == 1 {
        vec![153u8, 153]
    } else {
        vec![CNU, CNU]
    }
}

/// Initial context values for the QP delta, by slice type (0 for B,
/// 1 for P, 2 for I).
pub fn init_dqp(slice_type: u8) -> (r: Vec<u8>)
    requires
        slice_type < 3,
    ensures
        slice_type == 0 ==> r@ == seq![154u8, 154, 154],
        slice_type == 1 ==> r@ == seq![154u8, 154, 154],
        slice_type == 2 ==> r@ == seq![154u8, 154, 154],
{
    if slice_type == 0 {
        vec![154u8, 154, 154]
    } else if slice_type == 1 {
        vec![154u8, 154, 154]
    } else {
        vec![154u8, 154, 154]
    }
}

/// Initial context values for the chroma QP adjustment flag, by slice type (0 for B,
/// 1 for P, 2 for I).
pub fn init_chroma_qp_adj_flag(slice_type: u8) -> (r: Vec<u8>)
    requires
        slice_type < 3,
    ensures
        slice_type == 0 ==> r@ == seq![154u8],
        slice_type == 1 ==> r@ == seq![154u8],
        slice_type == 2 ==> r@ == seq![154u8],
{
    if slice_type == 0 {
        vec![154u8]
    } else if slice_type == 1 {
        vec![154u8]
    } else {
        vec![154u8]
    }
}

/// Initial context values for the chroma QP adjustment index, by slice type (0 for B,
/// 1 for P, 2 for I).
pub fn init_chroma_qp_adj_idc(slice_type: u8) -> (r: Vec<u8>)
    requires
        slice_type < 3,
    ensures
        slice_type == 0 ==> r@ == seq![154u8],
        slice_type == 1 ==> r@ == seq![154u8],
        slice_type == 2 ==> r@ == seq![154u8],
{
    if slice_type == 0 {
        vec![154u8]
    } else if slice_type == 1 {
        vec![154u8]
    } else {
        vec![154u8]
    }
}

/// Initial context values for the coded block flags, luma then chroma, by slice type (0 for B,
/// 1 for P, 2 for I).
pub fn init_qt_cbf(slice_type: u8) -> (r: Vec<u8>)
    requires
        slice_type < 3,
    ensures
        slice_type == 0 ==> r@ == seq![153u8, 111, CNU, CNU, CNU, 149, 92, 167, 154, 154],
        slice_type == 1 ==> r@ == seq![153u8, 111, CNU, CNU, CNU, 149, 107, 167, 154, 154],
        slice_type == 2 ==> r@ == seq![111u8, 141, CNU, CNU, CNU, 94, 138, 182, 154, 154],
{
    if slice_type == 0 {
        vec![153u8, 111, CNU, CNU, CNU, 149, 92, 167, 154, 154]
    } else if slice_type == 1 {
        vec![153u8, 111, CNU, CNU, CNU, 149, 107, 167, 154, 154]
    } else {
        vec![111u8, 141, CNU, CNU, CNU, 94, 138, 182, 154, 154]
    }
}

/// Initial context values for the root coded block flag, by slice type (0 for B,
/// 1 for P, 2 for I).
pub fn init_qt_root_cbf(slice_type: u8) -> (r: Vec<u8>)
    requires
        slice_type < 3,
    ensures
        slice_type == 0 ==> r@ == seq![79u8],
        slice_type == 1 ==> r@ == seq![79u8],
        slice_type == 2 ==> r@ == seq![CNU],
{
    if slice_type == 0 {
        vec![79u8]
    } else if slice_type == 1 {
        vec![79u8]
    } else {
        vec![CNU]
    }
}

/// Initial context values for the last significant coefficient position, luma then chroma, by slice type (0 for B,
/// 1 for P, 2 for I).
pub fn init_last(slice_type: u8) -> (r: Vec<u8>)
    requires
        slice_type < 3,
    ensures
        slice_type == 0 ==> r@ == seq![125u8, 110, 124, 110, 95, 94, 125, 111, 111, 79, 125, 126, 111, 111, 79, 108, 123, 93, CNU, CNU, CNU, CNU, CNU, CNU, CNU, CNU, CNU, CNU, CNU, CNU],
        slice_type == 1 ==> r@ == seq![125u8, 110, 94, 110, 95, 79, 125, 111, 110, 78, 110, 111, 111, 95, 94, 108, 123, 108, CNU, CNU, CNU, CNU, CNU, CNU, CNU, CNU, CNU, CNU, CNU, CNU],
        slice_type == 2 ==> r@ == seq![110u8, 110, 124, 125, 140, 153, 125, 127, 140, 109, 111, 143, 127, 111, 79, 108, 123, 63, CNU, CNU, CNU, CNU, CNU, CNU, CNU, CNU, CNU, CNU, CNU, CNU],
{
    if slice_type == 0 {
        vec![125u8, 110, 124, 110, 95, 94, 125, 111, 111, 79, 125, 126, 111, 111, 79, 108, 123, 93, CNU, CNU, CNU, CNU, CNU, CNU, CNU, CNU, CNU, CNU, CNU, CNU]
    } else if slice_type == 1 {
        vec![125u8, 110, 94, 110, 95, 79, 125, 111, 110, 78, 110, 111, 111, 95, 94, 108, 123, 108, CNU, CNU, CNU, CNU, CNU, CNU, CNU, CNU, CNU, CNU, CNU, CNU]
    } else {
        vec![110u8, 110, 124, 125, 140, 153, 125, 127, 140, 109, 111, 143, 127, 111, 79, 108, 123, 63, CNU, CNU, CNU, CNU, CNU, CNU, CNU, CNU, CNU, CNU, CNU, CNU]
    }
}

/// Initial context values for the coefficient group significance flag, by slice type (0 for B,
/// 1 for P, 2 for I).
pub fn init_sig_cg_flag(slice_type: u8) -> (r: Vec<u8>)
    requires
        slice_type < 3,
    ensures
        slice_type == 0 ==> r@ == seq![121u8, 140, 61, 154],
        slice_type == 1 ==> r@ == seq![121u8, 140, 61, 154],
        slice_type == 2 ==> r@ == seq![91u8, 171, 134, 141],
{
    if slice_type == 0 {
        vec![121u8, 140, 61, 154]
    } else if slice_type == 1 {
        vec![121u8, 140, 61, 154]
    } else {
        vec![91u8, 171, 134, 141]
    }
}

/// Initial context values for the coefficient significance flags, luma then chroma, by slice type (0 for B,
/// 1 for P, 2 for I).
pub fn init_sig_flag(slice_type: u8) -> (r: Vec<u8>)
    requires
        slice_type < 3,
    ensures
        slice_type == 0 ==> r@ == seq![170u8, 154, 139, 153, 139, 123, 123, 63, 124, 166, 183, 140, 136, 153, 154, 166, 183, 140, 136, 153, 154, 166, 183, 140, 136, 153, 154, 140, 170, 153, 138, 138, 122, 121, 122, 121, 167, 151, 183, 140, 151, 183, 140, 140],
        slice_type == 1 ==> r@ == seq![155u8, 154, 139, 153, 139, 123, 123, 63, 153, 166, 183, 140, 136, 153, 154, 166, 183, 140, 136, 153, 154, 166, 183, 140, 136, 153, 154, 140, 170, 153, 123, 123, 107, 121, 107, 121, 167, 151, 183, 140, 151, 183, 140, 140],
        slice_type == 2 ==> r@ == seq![111u8, 111, 125, 110, 110, 94, 124, 108, 124, 107, 125, 141, 179, 153, 125, 107, 125, 141, 179, 153, 125, 107, 125, 141, 179, 153, 125, 141, 140, 139, 182, 182, 152, 136, 152, 136, 153, 136, 139, 111, 136, 139, 111, 111],
{
    if slice_type == 0 {
        vec![170u8, 154, 139, 153, 139, 123, 123, 63, 124, 166, 183, 140, 136, 153, 154, 166, 183, 140, 136, 153, 154, 166, 183, 140, 136, 153, 154, 140, 170, 153, 138, 138, 122, 121, 122, 121, 167, 151, 183, 140, 151, 183, 140, 140]
    } else if slice_type == 1 {
        vec![155u8, 154, 139, 153, 139, 123, 123, 63, 153, 166, 183, 140, 136, 153, 154, 166, 183, 140, 136, 153, 154, 166, 183, 140, 136, 153, 154, 140, 170, 153, 123, 123, 107, 121, 107, 121, 167, 151, 183, 140, 151, 183, 140, 140]
    } else {
        vec![111u8, 111, 125, 110, 110, 94, 124, 108, 124, 107, 125, 141, 179, 153, 125, 107, 125, 141, 179, 153, 125, 107, 125, 141, 179, 153, 125, 141, 140, 139, 182, 182, 152, 136, 152, 136, 153, 136, 139, 111, 136, 139, 111, 111]
    }
}

/// Initial context values for the greater-than-one flags, by slice type (0 for B,
/// 1 for P, 2 for I).
pub fn init_one_flag(slice_type: u8) -> (r: Vec<u8>)
    requires
        slice_type < 3,
    ensures
        slice_type == 0 ==> r@ == seq![154u8, 196, 167, 167, 154, 152, 167, 182, 182, 134, 149, 136, 153, 121, 136, 122, 169, 208, 166, 167, 154, 152, 167, 182],
        slice_type == 1 ==> r@ == seq![154u8, 196, 196, 167, 154, 152, 167, 182, 182, 134, 149, 136, 153, 121, 136, 137, 169, 194, 166, 167, 154, 167, 137, 182],
        slice_type == 2 ==> r@ == seq![140u8, 92, 137, 138, 140, 152, 138, 139, 153, 74, 149, 92, 139, 107, 122, 152, 140, 179, 166, 182, 140, 227, 122, 197],
{
    if slice_type == 0 {
        vec![154u8, 196, 167, 167, 154, 152, 167, 182, 182, 134, 149, 136, 153, 121, 136, 122, 169, 208, 166, 167, 154, 152, 167, 182]
    } else if slice_type == 1 {
        vec![154u8, 196, 196, 167, 154, 152, 167, 182, 182, 134, 149, 136, 153, 121, 136, 137, 169, 194, 166, 167, 154, 167, 137, 182]
    } else {
        vec![140u8, 92, 137, 138, 140, 152, 138, 139, 153, 74, 149, 92, 139, 107, 122, 152, 140, 179, 166, 182, 140, 227, 122, 197]
    }
}

/// Initial context values for the greater-than-two flags, by slice type (0 for B,
/// 1 for P, 2 for I).
pub fn init_abs_flag(slice_type: u8) -> (r: Vec<u8>)
    requires
        slice_type < 3,
    ensures
        slice_type == 0 ==> r@ == seq![107u8, 167, 91, 107, 107, 167],
        slice_type == 1 ==> r@ == seq![107u8, 167, 91, 122, 107, 167],
        slice_type == 2 ==> r@ == seq![138u8, 153, 136, 167, 152, 152],
{
    if slice_type == 0 {
        vec![107u8, 167, 91, 107, 107, 167]
    } else if slice_type == 1 {
        vec![107u8, 167, 91, 122, 107, 167]
    } else {
        vec![138u8, 153, 136, 167, 152, 152]
    }
}

/// Initial context values for the motion vector predictor index, by slice type (0 for B,
/// 1 for P, 2 for I).
pub fn init_mvp_idx(slice_type: u8) -> (r: Vec<u8>)
    requires
        slice_type < 3,
    ensures
        slice_type == 0 ==> r@ == seq![168u8],
        slice_type == 1 ==> r@ == seq![168u8],
        slice_type == 2 ==> r@ == seq![CNU],
{
    if slice_type == 0 {
        vec![168u8]
    } else if slice_type == 1 {
        vec![168u8]
    } else {
        vec![CNU]
    }
}

/// Initial context values for the SAO merge flag, by slice type (0 for B,
/// 1 for P, 2 for I).
pub fn init_sao_merge_flag(slice_type: u8) -> (r: Vec<u8>)
    requires
        slice_type < 3,
    ensures
        slice_type == 0 ==> r@ == seq![153u8],
        slice_type == 1 ==> r@ == seq![153u8],
        slice_type == 2 ==> r@ == seq![153u8],
{
    if slice_type == 0 {
        vec![153u8]
    } else if slice_type == 1 {
        vec![153u8]
    } else {
        vec![153u8]
    }
}

/// Initial context values for the SAO type index, by slice type (0 for B,
/// 1 for P, 2 for I).
pub fn init_sao_type_idx(slice_type: u8) -> (r: Vec<u8>)
    requires
        slice_type < 3,
    ensures
        slice_type == 0 ==> r@ == seq![160u8],
        slice_type == 1 ==> r@ == seq![185u8],
        slice_type == 2 ==> r@ == seq![200u8],
{
    if slice_type == 0 {
        vec![160u8]
    } else if slice_type == 1 {
        vec![185u8]
    } else {
        vec![200u8]
    }
}

/// Initial context values for the transform subdivision flag, by slice type (0 for B,
/// 1 for P, 2 for I).
pub fn init_trans_subdiv_flag(slice_type: u8) -> (r: Vec<u8>)
    requires
        slice_type < 3,
    ensures
        slice_type == 0 ==> r@ == seq![224u8, 167, 122],
        slice_type == 1 ==> r@ == seq![124u8, 138, 94],
        slice_type == 2 ==> r@ == seq![153u8, 138, 138],
{
    if slice_type == 0 {
        vec![224u8, 167, 122]
    } else if slice_type == 1 {
        vec![124u8, 138, 94]
    } else {
        vec![153u8, 138, 138]
    }
}

/// Initial context values for the transform skip flag, luma then chroma, by slice type (0 for B,
/// 1 for P, 2 for I).
pub fn init_transformskip_flag(slice_type: u8) -> (r: Vec<u8>)
    requires
        slice_type < 3,
    ensures
        slice_type == 0 ==> r@ == seq![139u8, 139],
        slice_type == 1 ==> r@ == seq![139u8, 139],
        slice_type == 2 ==> r@ == seq![139u8, 139],
{
    if slice_type == 0 {
        vec![139u8, 139]
    } else if slice_type == 1 {
        vec![139u8, 139]
    } else {
        vec![139u8, 139]
    }
}

/// Initial context values for the explicit RDPCM flag, by slice type (0 for B,
/// 1 for P, 2 for I).
pub fn init_explicit_rdpcm_flag(slice_type: u8) -> (r: Vec<u8>)
    requires
        slice_type < 3,
    ensures
        slice_type == 0 ==> r@ == seq![139u8, 139],
        slice_type == 1 ==> r@ == seq![139u8, 139],
        slice_type == 2 ==> r@ == seq![CNU, CNU],
{
    if slice_type == 0 {
        vec![139u8, 139]
    } else if slice_type == 1 {
        vec![139u8, 139]
    } else {
        vec![CNU, CNU]
    }
}

/// Initial context values for the explicit RDPCM direction, by slice type (0 for B,
/// 1 for P, 2 for I).
pub fn init_explicit_rdpcm_dir(slice_type: u8) -> (r: Vec<u8>)
    requires
        slice_type < 3,
    ensures
        slice_type == 0 ==> r@ == seq![139u8, 139],
        slice_type == 1 ==> r@ == seq![139u8, 139],
        slice_type == 2 ==> r@ == seq![CNU, CNU],
{
    if slice_type == 0 {
        vec![139u8, 139]
    } else if slice_type == 1 {
        vec![139u8, 139]
    } else {
        vec![CNU, CNU]
    }
}

/// Initial context values for cross-component prediction, by slice type (0 for B,
/// 1 for P, 2 for I).
pub fn init_cross_component_prediction(slice_type: u8) -> (r: Vec<u8>)
    requires
        slice_type < 3,
    ensures
        slice_type == 0 ==> r@ == seq![154u8, 154, 154, 154, 154, 154, 154, 154, 154, 154],
        slice_type == 1 ==> r@ == seq![154u8, 154, 154, 154, 154, 154, 154, 154, 154, 154],
        slice_type == 2 ==> r@ == seq![154u8, 154, 154, 154, 154, 154, 154, 154, 154, 154],
{
    if slice_type == 0 {
        vec![154u8, 154, 154, 154, 154, 154, 154, 154, 154, 154]
    } else if slice_type == 1 {
        vec![154u8, 154, 154, 154, 154, 154, 154, 154, 154, 154]
    } else {
        vec![154u8, 154, 154, 154, 154, 154, 154, 154, 154, 154]
    }
}

} // verus!
