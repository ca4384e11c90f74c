//! What every syntax structure keeps of a walk: its direction, its unit,
//! its being well formed and, for a reader, that the children have names
//! that can stand in a text.

use crate::codec::FieldType;
use crate::error::ErrorKind;
use crate::grammar::{
    corners, dec_ref_pic_marking, marking_operands, markings, modifications, nalu, nalu_body, pps,
    pred_weight_table, ref_pic_list_modification, repeat_field, scaling_list, scaling_matrix, slice,
    slice_header, slice_header_counts, slice_header_end, slice_header_refs, slice_header_start, sps,
    subnode, weights, weights_of, WeightNames,
};
use crate::machine::{lemma_field_fuel, Walk};
use crate::numeral::{decimal, digits, indexed};
use crate::text::is_space;
use crate::text_roundtrip::{all_well_named, is_name};
use crate::state::{H264State, SliceType};
use vstd::prelude::*;

verus! {

/// Whether every child of the walk has names that can stand in a text.
pub open spec fn named(x: Walk) -> bool {
    all_well_named(x.kids)
}

/// Whether the walk `b` has the direction and the unit of `a`, is well
/// formed where `a` is, and, for a reader, has children with names that
/// can stand in a text where `a` has.
pub open spec fn keeps(a: Walk, b: Walk) -> bool {
    &&& b.m.writing == a.m.writing
    &&& b.m.bytes == a.m.bytes
    &&& a.wf() ==> b.wf()
    &&& !a.m.writing ==> b.m.out == a.m.out
    &&& !a.m.writing && named(a) ==> named(b)
}

/// A name with an index can stand in a text where the name can.
pub proof fn lemma_indexed_name(base: Seq<char>, i: int)
    requires
        is_name(base),
    ensures
        is_name(indexed(base, i)),
{
    let number = decimal(i);
    lemma_decimal_chars(i);
    let name = indexed(base, i);
    assert forall|k: int| 0 <= k < name.len() implies !is_space(name[k]) && name[k] != ':' by {
        if k < base.len() {
            assert(name[k] == base[k]);
        } else if k == base.len() {
            assert(name[k] == '[');
        } else if k < base.len() + 1 + number.len() {
            assert(name[k] == number[k - base.len() - 1]);
        } else {
            assert(name[k] == ']');
        }
    }
}

/// A number in decimal holds no white space and no colon.
pub proof fn lemma_decimal_chars(v: int)
    ensures
        forall|k: int|
            0 <= k < decimal(v).len() ==> !is_space(#[trigger] decimal(v)[k]) && decimal(v)[k]
                != ':',
{
    let n = if v < 0 {
        (-v) as nat
    } else {
        v as nat
    };
    crate::text_roundtrip::lemma_digits_value(n);
    assert forall|k: int| 0 <= k < decimal(v).len() implies !is_space(#[trigger] decimal(v)[k])
        && decimal(v)[k] != ':' by {
        if v < 0 {
            if k > 0 {
                assert(decimal(v)[k] == digits(n)[k - 1]);
                assert(crate::text::digit_of(digits(n)[k - 1], 10) is Some);
            }
        } else {
            assert(crate::text::digit_of(digits(n)[k], 10) is Some);
        }
    }
}

/// The names of the syntax elements can stand in a text.
pub proof fn lemma_names()
    ensures
        is_name("abs_diff_pic_num_minus1"@),
        is_name("abs_diff_view_idx_minus1"@),
        is_name("adaptive_ref_pic_marking_mode_flag"@),
        is_name("bit_depth_chroma_minus8"@),
        is_name("bit_depth_luma_minus8"@),
        is_name("bottom_field_flag"@),
        is_name("bottom_field_pic_order_in_frame_present_flag"@),
        is_name("bottom_right"@),
        is_name("cabac_init_idc"@),
        is_name("chroma_format_idc"@),
        is_name("chroma_log2_weight_denom"@),
        is_name("chroma_offset_l0"@),
        is_name("chroma_offset_l1"@),
        is_name("chroma_qp_index_offset"@),
        is_name("chroma_weight_l0"@),
        is_name("chroma_weight_l0_flag"@),
        is_name("chroma_weight_l1"@),
        is_name("chroma_weight_l1_flag"@),
        is_name("color_plane_id"@),
        is_name("constrained_intra_pred_flag"@),
        is_name("constraint_set0_flag"@),
        is_name("constraint_set1_flag"@),
        is_name("constraint_set2_flag"@),
        is_name("constraint_set3_flag"@),
        is_name("constraint_set4_flag"@),
        is_name("constraint_set5_flag"@),
        is_name("deblocking_filter_control_present_flag"@),
        is_name("dec_ref_pic_marking"@),
        is_name("delta_pic_order_always_zero_flag"@),
        is_name("delta_pic_order_cnt"@),
        is_name("delta_pic_order_cnt_bottom"@),
        is_name("delta_scale"@),
        is_name("difference_of_pic_nums_minus1"@),
        is_name("direct_8x8_inference_flag"@),
        is_name("direct_spatial_mv_pred_flag"@),
        is_name("disable_deblocking_filter_idc"@),
        is_name("entropy_coding_mode_flag"@),
        is_name("field_pic_flag"@),
        is_name("filler_data"@),
        is_name("filler_nalu"@),
        is_name("first_mb_in_slice"@),
        is_name("forbidden_zero_bit"@),
        is_name("frame_crop_bottom_offset"@),
        is_name("frame_crop_left_offset"@),
        is_name("frame_crop_right_offset"@),
        is_name("frame_crop_top_offset"@),
        is_name("frame_cropping_flag"@),
        is_name("frame_mbs_only_flag"@),
        is_name("frame_num"@),
        is_name("gaps_in_frame_num_value_allowed_flag"@),
        is_name("idr_pic_id"@),
        is_name("level_idc"@),
        is_name("log2_max_frame_num_minus4"@),
        is_name("log2_max_pic_order_cnt_lsb_minus4"@),
        is_name("long_term_frame_idx"@),
        is_name("long_term_pic_num"@),
        is_name("long_term_reference_flag"@),
        is_name("luma_log2_weight_denom"@),
        is_name("luma_offset_l0"@),
        is_name("luma_offset_l1"@),
        is_name("luma_weight_l0"@),
        is_name("luma_weight_l0_flag"@),
        is_name("luma_weight_l1"@),
        is_name("luma_weight_l1_flag"@),
        is_name("max_long_term_frame_idx_plus1"@),
        is_name("max_num_ref_frames"@),
        is_name("mb_adaptive_frame_field_flag"@),
        is_name("memory_management_control_operation"@),
        is_name("modification_of_pic_nums_idc"@),
        is_name("nal_ref_idc"@),
        is_name("nal_unit_type"@),
        is_name("no_output_of_prior_pics_flag"@),
        is_name("num_ref_frames_in_pic_order_cnt_cycle"@),
        is_name("num_ref_idx_active_override_flag"@),
        is_name("num_ref_idx_l0_active_minus1"@),
        is_name("num_ref_idx_l0_default_active_minus1"@),
        is_name("num_ref_idx_l1_active_minus1"@),
        is_name("num_ref_idx_l1_default_active_minus1"@),
        is_name("num_slice_groups_minus1"@),
        is_name("offset_for_non_ref_pic"@),
        is_name("offset_for_ref_frame"@),
        is_name("offset_for_top_to_bottom_field"@),
        is_name("pic_height_in_mbs_minus1"@),
        is_name("pic_init_qp_minus26"@),
        is_name("pic_init_qs_minus26"@),
        is_name("pic_order_cnt_lsb"@),
        is_name("pic_order_cnt_type"@),
        is_name("pic_parameter_set_id"@),
        is_name("pic_scaling_list_present_flag"@),
        is_name("pic_scaling_matrix_present_flag"@),
        is_name("pic_size_in_map_units_minus1"@),
        is_name("pic_width_in_mbs_minus1"@),
        is_name("pps"@),
        is_name("pred_weight_table"@),
        is_name("profile_idc"@),
        is_name("qpprime_y_zero_transform_bypass_flag"@),
        is_name("redundant_pic_cnt"@),
        is_name("redundant_pic_cnt_present_flag"@),
        is_name("ref_pic_list_modification"@),
        is_name("ref_pic_list_modification_flag_l0"@),
        is_name("ref_pic_list_modification_flag_l1"@),
        is_name("ref_pic_list_mvc_modification"@),
        is_name("reserved_zero_2bits"@),
        is_name("run_length_minus1"@),
        is_name("scaling_list4x4"@),
        is_name("scaling_list8x8"@),
        is_name("second_chroma_qp_index_offset"@),
        is_name("separate_color_plane_flag"@),
        is_name("seq_parameter_set_id"@),
        is_name("seq_paramter_set_id"@),
        is_name("seq_scaling_list_present_flag"@),
        is_name("seq_scaling_matrix_present_flag"@),
        is_name("slice"@),
        is_name("slice_alpha_c0_offset_div2"@),
        is_name("slice_beta_offset_div2"@),
        is_name("slice_group_change_cycle"@),
        is_name("slice_group_change_direction_flag"@),
        is_name("slice_group_change_rate_minus1"@),
        is_name("slice_group_id"@),
        is_name("slice_group_map_type"@),
        is_name("slice_header"@),
        is_name("slice_payload"@),
        is_name("slice_qp_delta"@),
        is_name("slice_qs_delta"@),
        is_name("slice_type"@),
        is_name("sp_for_switch_flag"@),
        is_name("sps"@),
        is_name("top_left"@),
        is_name("trailing_bits"@),
        is_name("transform_8x8_mode_flag"@),
        is_name("unparsed_nalu"@),
        is_name("unparsed_vui_params"@),
        is_name("vui_parameters_present_flag"@),
        is_name("weighted_bipred_idc"@),
        is_name("weighted_pred_flag"@),
        is_name("nalu"@),
{
    reveal_strlit("abs_diff_pic_num_minus1");
    reveal_strlit("abs_diff_view_idx_minus1");
    reveal_strlit("adaptive_ref_pic_marking_mode_flag");
    reveal_strlit("bit_depth_chroma_minus8");
    reveal_strlit("bit_depth_luma_minus8");
    reveal_strlit("bottom_field_flag");
    reveal_strlit("bottom_field_pic_order_in_frame_present_flag");
    reveal_strlit("bottom_right");
    reveal_strlit("cabac_init_idc");
    reveal_strlit("chroma_format_idc");
    reveal_strlit("chroma_log2_weight_denom");
    reveal_strlit("chroma_offset_l0");
    reveal_strlit("chroma_offset_l1");
    reveal_strlit("chroma_qp_index_offset");
    reveal_strlit("chroma_weight_l0");
    reveal_strlit("chroma_weight_l0_flag");
    reveal_strlit("chroma_weight_l1");
    reveal_strlit("chroma_weight_l1_flag");
    reveal_strlit("color_plane_id");
    reveal_strlit("constrained_intra_pred_flag");
    reveal_strlit("constraint_set0_flag");
    reveal_strlit("constraint_set1_flag");
    reveal_strlit("constraint_set2_flag");
    reveal_strlit("constraint_set3_flag");
    reveal_strlit("constraint_set4_flag");
    reveal_strlit("constraint_set5_flag");
    reveal_strlit("deblocking_filter_control_present_flag");
    reveal_strlit("dec_ref_pic_marking");
    reveal_strlit("delta_pic_order_always_zero_flag");
    reveal_strlit("delta_pic_order_cnt");
    reveal_strlit("delta_pic_order_cnt_bottom");
    reveal_strlit("delta_scale");
    reveal_strlit("difference_of_pic_nums_minus1");
    reveal_strlit("direct_8x8_inference_flag");
    reveal_strlit("direct_spatial_mv_pred_flag");
    reveal_strlit("disable_deblocking_filter_idc");
    reveal_strlit("entropy_coding_mode_flag");
    reveal_strlit("field_pic_flag");
    reveal_strlit("filler_data");
    reveal_strlit("filler_nalu");
    reveal_strlit("first_mb_in_slice");
    reveal_strlit("forbidden_zero_bit");
    reveal_strlit("frame_crop_bottom_offset");
    reveal_strlit("frame_crop_left_offset");
    reveal_strlit("frame_crop_right_offset");
    reveal_strlit("frame_crop_top_offset");
    reveal_strlit("frame_cropping_flag");
    reveal_strlit("frame_mbs_only_flag");
    reveal_strlit("frame_num");
    reveal_strlit("gaps_in_frame_num_value_allowed_flag");
    reveal_strlit("idr_pic_id");
    reveal_strlit("level_idc");
    reveal_strlit("log2_max_frame_num_minus4");
    reveal_strlit("log2_max_pic_order_cnt_lsb_minus4");
    reveal_strlit("long_term_frame_idx");
    reveal_strlit("long_term_pic_num");
    reveal_strlit("long_term_reference_flag");
    reveal_strlit("luma_log2_weight_denom");
    reveal_strlit("luma_offset_l0");
    reveal_strlit("luma_offset_l1");
    reveal_strlit("luma_weight_l0");
    reveal_strlit("luma_weight_l0_flag");
    reveal_strlit("luma_weight_l1");
    reveal_strlit("luma_weight_l1_flag");
    reveal_strlit("max_long_term_frame_idx_plus1");
    reveal_strlit("max_num_ref_frames");
    reveal_strlit("mb_adaptive_frame_field_flag");
    reveal_strlit("memory_management_control_operation");
    reveal_strlit("modification_of_pic_nums_idc");
    reveal_strlit("nal_ref_idc");
    reveal_strlit("nal_unit_type");
    reveal_strlit("no_output_of_prior_pics_flag");
    reveal_strlit("num_ref_frames_in_pic_order_cnt_cycle");
    reveal_strlit("num_ref_idx_active_override_flag");
    reveal_strlit("num_ref_idx_l0_active_minus1");
    reveal_strlit("num_ref_idx_l0_default_active_minus1");
    reveal_strlit("num_ref_idx_l1_active_minus1");
    reveal_strlit("num_ref_idx_l1_default_active_minus1");
    reveal_strlit("num_slice_groups_minus1");
    reveal_strlit("offset_for_non_ref_pic");
    reveal_strlit("offset_for_ref_frame");
    reveal_strlit("offset_for_top_to_bottom_field");
    reveal_strlit("pic_height_in_mbs_minus1");
    reveal_strlit("pic_init_qp_minus26");
    reveal_strlit("pic_init_qs_minus26");
    reveal_strlit("pic_order_cnt_lsb");
    reveal_strlit("pic_order_cnt_type");
    reveal_strlit("pic_parameter_set_id");
    reveal_strlit("pic_scaling_list_present_flag");
    reveal_strlit("pic_scaling_matrix_present_flag");
    reveal_strlit("pic_size_in_map_units_minus1");
    reveal_strlit("pic_width_in_mbs_minus1");
    reveal_strlit("pps");
    reveal_strlit("pred_weight_table");
    reveal_strlit("profile_idc");
    reveal_strlit("qpprime_y_zero_transform_bypass_flag");
    reveal_strlit("redundant_pic_cnt");
    reveal_strlit("redundant_pic_cnt_present_flag");
    reveal_strlit("ref_pic_list_modification");
    reveal_strlit("ref_pic_list_modification_flag_l0");
    reveal_strlit("ref_pic_list_modification_flag_l1");
    reveal_strlit("ref_pic_list_mvc_modification");
    reveal_strlit("reserved_zero_2bits");
    reveal_strlit("run_length_minus1");
    reveal_strlit("scaling_list4x4");
    reveal_strlit("scaling_list8x8");
    reveal_strlit("second_chroma_qp_index_offset");
    reveal_strlit("separate_color_plane_flag");
    reveal_strlit("seq_parameter_set_id");
    reveal_strlit("seq_paramter_set_id");
    reveal_strlit("seq_scaling_list_present_flag");
    reveal_strlit("seq_scaling_matrix_present_flag");
    reveal_strlit("slice");
    reveal_strlit("slice_alpha_c0_offset_div2");
    reveal_strlit("slice_beta_offset_div2");
    reveal_strlit("slice_group_change_cycle");
    reveal_strlit("slice_group_change_direction_flag");
    reveal_strlit("slice_group_change_rate_minus1");
    reveal_strlit("slice_group_id");
    reveal_strlit("slice_group_map_type");
    reveal_strlit("slice_header");
    reveal_strlit("slice_payload");
    reveal_strlit("slice_qp_delta");
    reveal_strlit("slice_qs_delta");
    reveal_strlit("slice_type");
    reveal_strlit("sp_for_switch_flag");
    reveal_strlit("sps");
    reveal_strlit("top_left");
    reveal_strlit("trailing_bits");
    reveal_strlit("transform_8x8_mode_flag");
    reveal_strlit("unparsed_nalu");
    reveal_strlit("unparsed_vui_params");
    reveal_strlit("vui_parameters_present_flag");
    reveal_strlit("weighted_bipred_idc");
    reveal_strlit("weighted_pred_flag");
    reveal_strlit("nalu");
}

/// What every step keeps.
pub proof fn lemma_steps_keep()
    ensures
        forall|x: Walk, name: Seq<char>, ft: FieldType, n: u8|
            is_name(name) ==> keeps(x, #[trigger] x.field(name, ft, n)),
        forall|x: Walk, name: Seq<char>| is_name(name) ==> keeps(x, #[trigger] x.payload(name)),
        forall|x: Walk, kind: ErrorKind, name: Seq<char>| keeps(x, #[trigger] x.raise(kind, name)),
        forall|x: Walk, name: Seq<char>|
            keeps(Walk { m: x.m, kids: Seq::empty() }, #[trigger] x.inner(name)) && (
            !x.m.writing ==> named(x.inner(name))),
        forall|x: Walk, name: Seq<char>, done: Walk|
            is_name(name) && keeps(x.inner(name), done) ==> keeps(
                x,
                #[trigger] subnode(x, name, done),
            ),
        forall|base: Seq<char>, i: int| is_name(base) ==> is_name(#[trigger] indexed(base, i)),
{
    assert forall|x: Walk, name: Seq<char>, ft: FieldType, n: u8| is_name(name) implies keeps(
        x,
        #[trigger] x.field(name, ft, n),
    ) by {
        if x.wf() {
            lemma_field_fuel(x, name, ft, n);
        }
    }
    assert forall|x: Walk, name: Seq<char>| is_name(name) implies keeps(
        x,
        #[trigger] x.payload(name),
    ) by {
        if x.wf() && !x.m.writing {
            crate::reader::lemma_rest(x.m.bytes, x.m.pos);
        }
    }
    assert forall|base: Seq<char>, i: int| is_name(base) implies is_name(
        #[trigger] indexed(base, i),
    ) by {
        lemma_indexed_name(base, i);
    }
}

/// What holds of every step holds of the fields `base[i]` up to `count`.
pub proof fn lemma_repeat_field_keeps(
    x: Walk,
    base: Seq<char>,
    ft: FieldType,
    n: u8,
    i: int,
    count: int,
)
    requires
        is_name(base),
    ensures
        keeps(x, repeat_field(x, base, ft, n, i, count)),
    decreases count - i,
{
    lemma_steps_keep();
    if i < count && !x.failed() {
        lemma_repeat_field_keeps(
            x.field(crate::numeral::indexed(base, i), ft, n),
            base,
            ft,
            n,
            i + 1,
            count,
        );
    }
}

/// What holds of every step holds of a scaling list.
pub proof fn lemma_scaling_list_keeps(x: Walk, size: nat, last: int, next: int)
    ensures
        keeps(x, scaling_list(x, size, last, next)),
    decreases size,
{
    lemma_names();
    lemma_steps_keep();
    if size > 0 {
        if next != 0 {
            let delta = crate::grammar::se_value(x, "delta_scale"@);
            let next1 = (last + delta + 256) % 256;
            lemma_scaling_list_keeps(
                crate::grammar::se(x, "delta_scale"@),
                (size - 1) as nat,
                if next1 == 0 {
                    last
                } else {
                    next1
                },
                next1,
            );
        } else {
            lemma_scaling_list_keeps(x, (size - 1) as nat, last, next);
        }
    }
}

/// What holds of every step holds of the scaling lists `i` up to `count` of a scaling matrix.
pub proof fn lemma_scaling_matrix_keeps(x: Walk, base: Seq<char>, i: int, count: int)
    requires
        is_name(base),
    ensures
        keeps(x, scaling_matrix(x, base, i, count)),
    decreases count - i,
{
    lemma_names();
    lemma_steps_keep();
    if i < count && !x.failed() {
        let name = crate::numeral::indexed(base, i);
        let present = crate::grammar::bit_set(x, name);
        let x1 = crate::grammar::bit(x, name);
        let x2 = if !present {
            x1
        } else if i < 6 {
            subnode(x1, "scaling_list4x4"@, scaling_list(x1.inner("scaling_list4x4"@), 16, 8, 8))
        } else {
            subnode(x1, "scaling_list8x8"@, scaling_list(x1.inner("scaling_list8x8"@), 64, 8, 8))
        };
        lemma_scaling_list_keeps(x1.inner("scaling_list4x4"@), 16, 8, 8);
        lemma_scaling_list_keeps(x1.inner("scaling_list8x8"@), 64, 8, 8);
        lemma_scaling_matrix_keeps(x2, base, i + 1, count);
    }
}

/// What holds of every step holds of the corner pairs of a slice group map.
pub proof fn lemma_corners_keeps(x: Walk, i: int, count: int)
    ensures
        keeps(x, corners(x, i, count)),
    decreases count - i,
{
    lemma_names();
    lemma_steps_keep();
    if i < count && !x.failed() {
        lemma_corners_keeps(
            crate::grammar::ue(
                crate::grammar::ue(x, crate::numeral::indexed("top_left"@, i)),
                crate::numeral::indexed("bottom_right"@, i),
            ),
            i + 1,
            count,
        );
    }
}

/// What holds of every step holds of the modifications of one reference picture list.
pub proof fn lemma_modifications_keeps(x: Walk)
    ensures
        keeps(x, modifications(x)),
    decreases x.fuel(),
{
    lemma_names();
    lemma_steps_keep();
    let idc = crate::grammar::ue_value(x, "modification_of_pic_nums_idc"@);
    let x1 = crate::grammar::ue(x, "modification_of_pic_nums_idc"@);
    if x.wf() && !x.failed() && !x1.failed() {
        let operand = if idc == 0 || idc == 1 {
            Some("abs_diff_pic_num_minus1"@)
        } else if idc == 2 {
            Some("long_term_pic_num"@)
        } else if idc == 4 || idc == 5 {
            Some("abs_diff_view_idx_minus1"@)
        } else {
            None
        };
        match operand {
            Some(name) => {
                lemma_field_fuel(
                    x,
                    "modification_of_pic_nums_idc"@,
                    FieldType::UnsignedExpGolomb,
                    0,
                );
                lemma_field_fuel(x1, name, FieldType::UnsignedExpGolomb, 0);
                lemma_modifications_keeps(crate::grammar::ue(x1, name));
            },
            None => {},
        }
    }
}

/// What holds of every step holds of the weights of the references `i` up to `count` of one list.
pub proof fn lemma_weights_keeps(x: Walk, names: WeightNames, chroma: bool, i: int, count: int)
    requires
        are_names(names),
    ensures
        keeps(x, weights(x, names, chroma, i, count)),
    decreases count - i,
{
    lemma_steps_keep();
    if i < count && !x.failed() {
        lemma_weights_keeps(weights_of(x, names, chroma, i), names, chroma, i + 1, count);
    }
}

/// What holds of every step holds of the memory management control operations of a slice.
pub proof fn lemma_markings_keeps(x: Walk)
    ensures
        keeps(x, markings(x)),
    decreases x.fuel(),
{
    lemma_names();
    lemma_steps_keep();
    let operation = crate::grammar::ue_value(x, "memory_management_control_operation"@);
    let x1 = crate::grammar::ue(x, "memory_management_control_operation"@);
    if x.wf() && !x.failed() && !x1.failed() && operation != 0 {
        lemma_field_fuel(
            x,
            "memory_management_control_operation"@,
            FieldType::UnsignedExpGolomb,
            0,
        );
        crate::grammar::lemma_marking_operands_fuel(x1, operation);
        lemma_markings_keeps(marking_operands(x1, operation));
    }
}

/// Whether the names of the weights of a list can stand in a text.
pub open spec fn are_names(names: WeightNames) -> bool {
    is_name(names.luma_flag) && is_name(names.luma_weight) && is_name(names.luma_offset)
        && is_name(names.chroma_flag) && is_name(names.chroma_weight) && is_name(
        names.chroma_offset,
    )
}

/// What the loops of the syntax keep.
pub proof fn lemma_loops_keep()
    ensures
        forall|x: Walk, base: Seq<char>, ft: FieldType, n: u8, i: int, count: int|
            is_name(base) ==> keeps(x, #[trigger] repeat_field(x, base, ft, n, i, count)),
        forall|x: Walk, size: nat, last: int, next: int|
            keeps(x, #[trigger] scaling_list(x, size, last, next)),
        forall|x: Walk, base: Seq<char>, i: int, count: int|
            is_name(base) ==> keeps(x, #[trigger] scaling_matrix(x, base, i, count)),
        forall|x: Walk, i: int, count: int| keeps(x, #[trigger] corners(x, i, count)),
        forall|x: Walk| keeps(x, #[trigger] modifications(x)),
        forall|x: Walk, names: WeightNames, chroma: bool, i: int, count: int|
            are_names(names) ==> keeps(x, #[trigger] weights(x, names, chroma, i, count)),
        forall|x: Walk| keeps(x, #[trigger] markings(x)),
{
    assert forall|x: Walk, base: Seq<char>, ft: FieldType, n: u8, i: int, count: int|
        is_name(base) implies keeps(x, #[trigger] repeat_field(x, base, ft, n, i, count)) by {
        lemma_repeat_field_keeps(x, base, ft, n, i, count);
    }
    assert forall|x: Walk, size: nat, last: int, next: int|
        keeps(x, #[trigger] scaling_list(x, size, last, next)) by {
        lemma_scaling_list_keeps(x, size, last, next);
    }
    assert forall|x: Walk, base: Seq<char>, i: int, count: int| is_name(base) implies keeps(
        x,
        #[trigger] scaling_matrix(x, base, i, count),
    ) by {
        lemma_scaling_matrix_keeps(x, base, i, count);
    }
    assert forall|x: Walk, i: int, count: int| keeps(x, #[trigger] corners(x, i, count)) by {
        lemma_corners_keeps(x, i, count);
    }
    assert forall|x: Walk| keeps(x, #[trigger] modifications(x)) by {
        lemma_modifications_keeps(x);
    }
    assert forall|x: Walk, names: WeightNames, chroma: bool, i: int, count: int|
        are_names(names) implies keeps(x, #[trigger] weights(x, names, chroma, i, count)) by {
        lemma_weights_keeps(x, names, chroma, i, count);
    }
    assert forall|x: Walk| keeps(x, #[trigger] markings(x)) by {
        lemma_markings_keeps(x);
    }
}

/// What holds of every step holds of a sequence parameter set.
pub proof fn lemma_sps_keeps(x: Walk, st: H264State)
    ensures
        keeps(x, sps(x, st).w),
{
    reveal(sps);
    lemma_names();
    lemma_steps_keep();
    lemma_loops_keep();
}

/// What holds of every step holds of a picture parameter set.
pub proof fn lemma_pps_keeps(x: Walk, st: H264State)
    ensures
        keeps(x, pps(x, st).w),
{
    reveal(pps);
    lemma_names();
    lemma_steps_keep();
    lemma_loops_keep();
}

/// What holds of every step holds of the first part of a slice header.
pub proof fn lemma_slice_header_start_keeps(x: Walk, st: H264State, nalu_type: i32)
    ensures
        keeps(x, slice_header_start(x, st, nalu_type)),
{
    lemma_names();
    lemma_steps_keep();
}

/// What holds of every step holds of the part of a slice header about the numbers of reference
/// pictures.
pub proof fn lemma_slice_header_counts_keeps(x: Walk, slice_type: SliceType)
    ensures
        keeps(x, slice_header_counts(x, slice_type)),
{
    lemma_names();
    lemma_steps_keep();
}

/// What holds of every step holds of the modification of the reference picture lists of a slice.
pub proof fn lemma_ref_pic_list_modification_keeps(x: Walk, slice_type: SliceType)
    ensures
        keeps(x, ref_pic_list_modification(x, slice_type)),
{
    lemma_names();
    lemma_steps_keep();
    lemma_loops_keep();
}

/// What holds of every step holds of the prediction weight table of a slice.
pub proof fn lemma_pred_weight_table_keeps(x: Walk, st: H264State, slice_type: SliceType)
    ensures
        keeps(x, pred_weight_table(x, st, slice_type)),
{
    lemma_names();
    lemma_steps_keep();
    lemma_loops_keep();
}

/// What holds of every step holds of the marking of decoded reference pictures of a slice.
pub proof fn lemma_dec_ref_pic_marking_keeps(x: Walk, idr_pic_flag: bool)
    ensures
        keeps(x, dec_ref_pic_marking(x, idr_pic_flag)),
{
    lemma_names();
    lemma_steps_keep();
    lemma_loops_keep();
}

/// What holds of every step holds of the part of a slice header about reference pictures.
pub proof fn lemma_slice_header_refs_keeps(
    x: Walk,
    st: H264State,
    slice_type: SliceType,
    nalu_type: i32,
    nal_ref_idc: i32,
)
    ensures
        keeps(x, slice_header_refs(x, st, slice_type, nalu_type, nal_ref_idc)),
{
    lemma_names();
    lemma_steps_keep();
    lemma_slice_header_counts_keeps(x, slice_type);
    assert forall|y: Walk, t: SliceType|
        keeps(y, #[trigger] ref_pic_list_modification(y, t)) by {
        lemma_ref_pic_list_modification_keeps(y, t);
    }
    assert forall|y: Walk, s: H264State, t: SliceType|
        keeps(y, #[trigger] pred_weight_table(y, s, t)) by {
        lemma_pred_weight_table_keeps(y, s, t);
    }
    assert forall|y: Walk, idr: bool| keeps(y, #[trigger] dec_ref_pic_marking(y, idr)) by {
        lemma_dec_ref_pic_marking_keeps(y, idr);
    }
}

/// What holds of every step holds of the last part of a slice header.
pub proof fn lemma_slice_header_end_keeps(x: Walk, st: H264State, slice_type: SliceType)
    ensures
        keeps(x, slice_header_end(x, st, slice_type)),
{
    lemma_names();
    lemma_steps_keep();
}

/// What holds of every step holds of a slice header.
pub proof fn lemma_slice_header_keeps(x: Walk, st: H264State, nalu_type: i32, nal_ref_idc: i32)
    ensures
        keeps(x, slice_header(x, st, nalu_type, nal_ref_idc)),
{
    lemma_names();
    lemma_steps_keep();
    assert forall|y: Walk, s: H264State, n: i32|
        keeps(y, #[trigger] slice_header_start(y, s, n)) by {
        lemma_slice_header_start_keeps(y, s, n);
    }
    assert forall|y: Walk, s: H264State, t: SliceType, n: i32, idc: i32|
        keeps(y, #[trigger] slice_header_refs(y, s, t, n, idc)) by {
        lemma_slice_header_refs_keeps(y, s, t, n, idc);
    }
    assert forall|y: Walk, s: H264State, t: SliceType|
        keeps(y, #[trigger] slice_header_end(y, s, t)) by {
        lemma_slice_header_end_keeps(y, s, t);
    }
}

/// What holds of every step holds of what follows the header of a NAL unit.
pub proof fn lemma_nalu_body_keeps(x: Walk, st: H264State, nalu_type: i32, nal_ref_idc: i32)
    ensures
        keeps(x, nalu_body(x, st, nalu_type, nal_ref_idc).w),
{
    lemma_names();
    lemma_steps_keep();
    lemma_sps_keeps(x.inner("sps"@), st);
    lemma_pps_keeps(x.inner("pps"@), st);
    lemma_slice_header_keeps(
        x.inner("slice"@).inner("slice_header"@),
        st,
        nalu_type,
        nal_ref_idc,
    );
}

/// A NAL unit keeps the direction and the unit of a walk, and its being
/// well formed.
pub proof fn lemma_nalu_keeps(x: Walk, st: H264State)
    ensures
        keeps(x, nalu(x, st).w),
{
    reveal(nalu);
    lemma_names();
    lemma_steps_keep();
    let x1 = crate::grammar::bit(x, "forbidden_zero_bit"@);
    let nal_ref_idc = crate::grammar::bits_value(x1, "nal_ref_idc"@, 2);
    let x2 = crate::grammar::bits(x1, "nal_ref_idc"@, 2);
    let nalu_type = crate::grammar::bits_value(x2, "nal_unit_type"@, 5);
    let x3 = crate::grammar::bits(x2, "nal_unit_type"@, 5);
    lemma_nalu_body_keeps(x3, st, nalu_type, nal_ref_idc);
}

} // verus!
