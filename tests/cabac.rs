use heifers::hevc::cabac;
use heifers::hevc::cabac::CNU;

fn all_tables() -> Vec<Vec<u8>> {
    let mut out = Vec::new();
    for slice_type in 0..3u8 {
        out.push(cabac::init_cu_transquant_bypass_flag(slice_type));
        out.push(cabac::init_split_flag(slice_type));
        out.push(cabac::init_skip_flag(slice_type));
        out.push(cabac::init_merge_flag_ext(slice_type));
        out.push(cabac::init_merge_idx_ext(slice_type));
        out.push(cabac::init_part_size(slice_type));
        out.push(cabac::init_pred_mode(slice_type));
        out.push(cabac::init_intra_pred_mode(slice_type));
        out.push(cabac::init_chroma_pred_mode(slice_type));
        out.push(cabac::init_inter_dir(slice_type));
        out.push(cabac::init_mvd(slice_type));
        out.push(cabac::init_ref_pic(slice_type));
        out.push(cabac::init_dqp(slice_type));
        out.push(cabac::init_chroma_qp_adj_flag(slice_type));
        out.push(cabac::init_chroma_qp_adj_idc(slice_type));
        out.push(cabac::init_qt_cbf(slice_type));
        out.push(cabac::init_qt_root_cbf(slice_type));
        out.push(cabac::init_last(slice_type));
        out.push(cabac::init_sig_cg_flag(slice_type));
        out.push(cabac::init_sig_flag(slice_type));
        out.push(cabac::init_one_flag(slice_type));
        out.push(cabac::init_abs_flag(slice_type));
        out.push(cabac::init_mvp_idx(slice_type));
        out.push(cabac::init_sao_merge_flag(slice_type));
        out.push(cabac::init_sao_type_idx(slice_type));
        out.push(cabac::init_trans_subdiv_flag(slice_type));
        out.push(cabac::init_transformskip_flag(slice_type));
        out.push(cabac::init_explicit_rdpcm_flag(slice_type));
        out.push(cabac::init_explicit_rdpcm_dir(slice_type));
        out.push(cabac::init_cross_component_prediction(slice_type));
    }
    out
}

#[test]
fn tables_match_published_digest() {
    let mut h: u64 = 0;
    let tables = all_tables();
    for slice_type in 0..3 {
        for k in 0..30 {
            for &v in &tables[slice_type * 30 + k] {
                h = h.wrapping_mul(31).wrapping_add(v as u64);
            }
        }
    }
    assert_eq!(1997511404652437714, h);
}

#[test]
fn tables_element_wise() {
    assert_eq!(vec![107u8, 139, 126], cabac::init_split_flag(0));
    assert_eq!(vec![139u8, 141, 157], cabac::init_split_flag(2));
    assert_eq!(vec![CNU, CNU, CNU], cabac::init_skip_flag(2));
    assert_eq!(vec![111u8, 141, CNU, CNU, CNU, 94, 138, 182, 154, 154], cabac::init_qt_cbf(2));
    assert_eq!(44, cabac::init_sig_flag(1).len());
    assert_eq!(30, cabac::init_last(0).len());
    assert_eq!(24, cabac::init_one_flag(2).len());
    assert_eq!(vec![138u8, 153, 136, 167, 152, 152], cabac::init_abs_flag(2));
    assert_eq!(154, CNU);
}
