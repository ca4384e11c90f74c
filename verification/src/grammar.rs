//! The H.264 syntax structures, each as a function from the walk at its
//! start to the walk at its end. One function stands for both directions: on
//! a reader's walk it says what is decoded, on a writer's what is encoded.

use crate::codec::FieldType;
use crate::error::ErrorKind;
use crate::machine::{lemma_field_fuel, Walk};
use crate::numeral::indexed;
use crate::state::{ceil_log2, slice_type_of, H264State, SliceType};
use vstd::prelude::*;

verus! {

/// A walk together with the parser state.
pub struct Pass {
    pub w: Walk,
    pub st: H264State,
}

/// The walk after a one-bit flag.
pub open spec fn bit(w: Walk, name: Seq<char>) -> Walk {
    w.field(name, FieldType::Boolean, 1)
}

/// Whether the one-bit flag is set.
pub open spec fn bit_set(w: Walk, name: Seq<char>) -> bool {
    w.field_value(name, FieldType::Boolean, 1) != 0
}

/// The walk after an unsigned exp-Golomb field.
pub open spec fn ue(w: Walk, name: Seq<char>) -> Walk {
    w.field(name, FieldType::UnsignedExpGolomb, 0)
}

/// The value of an unsigned exp-Golomb field.
pub open spec fn ue_value(w: Walk, name: Seq<char>) -> i32 {
    w.field_value(name, FieldType::UnsignedExpGolomb, 0)
}

/// The walk after a signed exp-Golomb field.
pub open spec fn se(w: Walk, name: Seq<char>) -> Walk {
    w.field(name, FieldType::SignedExpGolomb, 0)
}

/// The value of a signed exp-Golomb field.
pub open spec fn se_value(w: Walk, name: Seq<char>) -> i32 {
    w.field_value(name, FieldType::SignedExpGolomb, 0)
}

/// The walk after an unsigned field of `n` bits.
pub open spec fn bits(w: Walk, name: Seq<char>, n: u8) -> Walk {
    w.field(name, FieldType::UnsignedInt, n)
}

/// The value of an unsigned field of `n` bits.
pub open spec fn bits_value(w: Walk, name: Seq<char>, n: u8) -> i32 {
    w.field_value(name, FieldType::UnsignedInt, n)
}

/// The walk after an unsigned field whose width was computed: a failure
/// where the width is not between 0 and 64.
pub open spec fn sized(w: Walk, name: Seq<char>, width: int) -> Walk {
    if 0 <= width <= 64 {
        w.field(name, FieldType::UnsignedInt, width as u8)
    } else {
        w.raise(ErrorKind::BadWidth, name)
    }
}

/// The walk after the subnode `name`, where `done` is the walk over the
/// subnode at its end.
pub open spec fn subnode(w: Walk, name: Seq<char>, done: Walk) -> Walk {
    w.open(name).close(name, done)
}

/// The walk after the fields `base[i]`, `base[i + 1]`, up to `count`.
pub open spec fn repeat_field(
    w: Walk,
    base: Seq<char>,
    field_type: FieldType,
    n: u8,
    i: int,
    count: int,
) -> Walk
    decreases count - i,
{
    if i >= count || w.failed() {
        w
    } else {
        repeat_field(w.field(indexed(base, i), field_type, n), base, field_type, n, i + 1, count)
    }
}

/// A scaling list with `size` entries left, of which only the deltas are
/// coded: `last` and `next` are the running scales.
pub open spec fn scaling_list(w: Walk, size: nat, last: int, next: int) -> Walk
    decreases size,
{
    if size == 0 {
        w
    } else if next != 0 {
        let delta = se_value(w, "delta_scale"@);
        let w = se(w, "delta_scale"@);
        let next = (last + delta + 256) % 256;
        scaling_list(
            w,
            (size - 1) as nat,
            if next == 0 {
                last
            } else {
                next
            },
            next,
        )
    } else {
        scaling_list(w, (size - 1) as nat, last, next)
    }
}

/// The scaling lists `i` up to `count` of a scaling matrix, each behind a
/// flag `base[i]`: the first six of 16 entries, the others of 64.
pub open spec fn scaling_matrix(w: Walk, base: Seq<char>, i: int, count: int) -> Walk
    decreases count - i,
{
    if i >= count || w.failed() {
        w
    } else {
        let present = bit_set(w, indexed(base, i));
        let w = bit(w, indexed(base, i));
        let w = if !present {
            w
        } else if i < 6 {
            subnode(
                w,
                "scaling_list4x4"@,
                scaling_list(w.inner("scaling_list4x4"@), 16, 8, 8),
            )
        } else {
            subnode(
                w,
                "scaling_list8x8"@,
                scaling_list(w.inner("scaling_list8x8"@), 64, 8, 8),
            )
        };
        scaling_matrix(w, base, i + 1, count)
    }
}

/// Whether the profile has the chroma format, bit depths and scaling
/// matrix in its sequence parameter set.
pub open spec fn is_high_profile(profile_idc: i32) -> bool {
    profile_idc == 100 || profile_idc == 110 || profile_idc == 122 || profile_idc == 244
        || profile_idc == 44 || profile_idc == 83 || profile_idc == 86 || profile_idc == 118
        || profile_idc == 128 || profile_idc == 138 || profile_idc == 139 || profile_idc == 134
        || profile_idc == 135
}

/// The part of a sequence parameter set that only some profiles have.
pub open spec fn sps_high(w: Walk, st: H264State) -> Pass {
    let chroma_format_idc = ue_value(w, "chroma_format_idc"@);
    let w = ue(w, "chroma_format_idc"@);
    let st = H264State { chroma_format_idc, ..st };
    let st = if chroma_format_idc == 3 {
        H264State { separate_color_plane_flag: bit_set(w, "separate_color_plane_flag"@), ..st }
    } else {
        st
    };
    let w = if chroma_format_idc == 3 {
        bit(w, "separate_color_plane_flag"@)
    } else {
        w
    };
    let w = ue(w, "bit_depth_luma_minus8"@);
    let w = ue(w, "bit_depth_chroma_minus8"@);
    let w = bit(w, "qpprime_y_zero_transform_bypass_flag"@);
    let matrix = bit_set(w, "seq_scaling_matrix_present_flag"@);
    let w = bit(w, "seq_scaling_matrix_present_flag"@);
    let w = if matrix {
        scaling_matrix(
            w,
            "seq_scaling_list_present_flag"@,
            0,
            if chroma_format_idc != 3 {
                8
            } else {
                12
            },
        )
    } else {
        w
    };
    Pass { w, st }
}

/// The frame numbering and picture order count part of a sequence
/// parameter set.
pub open spec fn sps_order(w: Walk, st: H264State) -> Pass {
    let st = H264State { log2_max_frame_num_minus4: ue_value(w, "log2_max_frame_num_minus4"@), ..st };
    let w = ue(w, "log2_max_frame_num_minus4"@);
    let pic_order_cnt_type = ue_value(w, "pic_order_cnt_type"@);
    let w = ue(w, "pic_order_cnt_type"@);
    let st = H264State { pic_order_cnt_type, ..st };
    if pic_order_cnt_type == 0 {
        Pass {
            w: ue(w, "log2_max_pic_order_cnt_lsb_minus4"@),
            st: H264State {
                log2_max_pic_order_cnt_lsb_minus4: ue_value(
                    w,
                    "log2_max_pic_order_cnt_lsb_minus4"@,
                ),
                ..st
            },
        }
    } else if pic_order_cnt_type == 1 {
        let st = H264State {
            delta_pic_order_always_zero_flag: bit_set(w, "delta_pic_order_always_zero_flag"@),
            ..st
        };
        let w = bit(w, "delta_pic_order_always_zero_flag"@);
        let w = se(w, "offset_for_non_ref_pic"@);
        let w = se(w, "offset_for_top_to_bottom_field"@);
        let count = ue_value(w, "num_ref_frames_in_pic_order_cnt_cycle"@);
        let w = ue(w, "num_ref_frames_in_pic_order_cnt_cycle"@);
        Pass {
            w: repeat_field(
                w,
                "offset_for_ref_frame"@,
                FieldType::SignedExpGolomb,
                0,
                0,
                count as int,
            ),
            st,
        }
    } else {
        Pass { w, st }
    }
}

/// The frame size and cropping part of a sequence parameter set, and what
/// is left of the unit.
pub open spec fn sps_frame(w: Walk, st: H264State) -> Pass {
    let w = ue(w, "max_num_ref_frames"@);
    let w = bit(w, "gaps_in_frame_num_value_allowed_flag"@);
    let w = ue(w, "pic_width_in_mbs_minus1"@);
    let w = ue(w, "pic_height_in_mbs_minus1"@);
    let frame_mbs_only = bit_set(w, "frame_mbs_only_flag"@);
    let w = bit(w, "frame_mbs_only_flag"@);
    let st = H264State { frame_mbs_only_flag: frame_mbs_only, ..st };
    let w = if !frame_mbs_only {
        bit(w, "mb_adaptive_frame_field_flag"@)
    } else {
        w
    };
    let w = bit(w, "direct_8x8_inference_flag"@);
    let cropping = bit_set(w, "frame_cropping_flag"@);
    let w = bit(w, "frame_cropping_flag"@);
    let w = if cropping {
        ue(
            ue(
                ue(ue(w, "frame_crop_left_offset"@), "frame_crop_right_offset"@),
                "frame_crop_top_offset"@,
            ),
            "frame_crop_bottom_offset"@,
        )
    } else {
        w
    };
    let vui = bit_set(w, "vui_parameters_present_flag"@);
    let w = bit(w, "vui_parameters_present_flag"@);
    Pass {
        w: w.payload(
            if vui {
                "unparsed_vui_params"@
            } else {
                "trailing_bits"@
            },
        ),
        st,
    }
}

/// A sequence parameter set.
#[verifier::opaque]
pub open spec fn sps(w: Walk, st: H264State) -> Pass {
    let profile_idc = bits_value(w, "profile_idc"@, 8);
    let w = bits(w, "profile_idc"@, 8);
    let w = bit(w, "constraint_set0_flag"@);
    let w = bit(w, "constraint_set1_flag"@);
    let w = bit(w, "constraint_set2_flag"@);
    let w = bit(w, "constraint_set3_flag"@);
    let w = bit(w, "constraint_set4_flag"@);
    let w = bit(w, "constraint_set5_flag"@);
    let w = bits(w, "reserved_zero_2bits"@, 2);
    let w = bits(w, "level_idc"@, 8);
    let w = ue(w, "seq_paramter_set_id"@);
    let p = if is_high_profile(profile_idc) {
        sps_high(w, st)
    } else {
        Pass { w, st }
    };
    let p = sps_order(p.w, p.st);
    sps_frame(p.w, p.st)
}

/// The corner pairs `top_left[i]`, `bottom_right[i]` up to `count`.
pub open spec fn corners(w: Walk, i: int, count: int) -> Walk
    decreases count - i,
{
    if i >= count || w.failed() {
        w
    } else {
        corners(
            ue(ue(w, indexed("top_left"@, i)), indexed("bottom_right"@, i)),
            i + 1,
            count,
        )
    }
}

/// The slice group map of a picture parameter set.
pub open spec fn slice_groups(w: Walk, st: H264State) -> Pass {
    let groups = st.num_slice_groups_minus1;
    let map_type = ue_value(w, "slice_group_map_type"@);
    let w = ue(w, "slice_group_map_type"@);
    let st = H264State { slice_group_map_type: map_type, ..st };
    if map_type == 0 {
        Pass {
            w: repeat_field(
                w,
                "run_length_minus1"@,
                FieldType::UnsignedExpGolomb,
                0,
                0,
                groups + 1,
            ),
            st,
        }
    } else if map_type == 2 {
        Pass { w: corners(w, 0, groups as int), st }
    } else if 3 <= map_type <= 5 {
        let w = bit(w, "slice_group_change_direction_flag"@);
        Pass {
            w: ue(w, "slice_group_change_rate_minus1"@),
            st: H264State {
                slice_group_change_rate_minus1: ue_value(w, "slice_group_change_rate_minus1"@),
                ..st
            },
        }
    } else if map_type == 6 {
        let units = ue_value(w, "pic_size_in_map_units_minus1"@);
        let w = ue(w, "pic_size_in_map_units_minus1"@);
        Pass {
            w: repeat_field(
                w,
                "slice_group_id"@,
                FieldType::UnsignedInt,
                ceil_log2(groups + 1) as u8,
                0,
                units + 1,
            ),
            st: H264State { pic_size_in_map_units_minus1: units, ..st },
        }
    } else {
        Pass { w, st }
    }
}

/// The part of a picture parameter set that is there where more than the
/// closing bits follow.
pub open spec fn pps_extension(w: Walk, st: H264State) -> Walk {
    let transform = w.field_value("transform_8x8_mode_flag"@, FieldType::Boolean, 1);
    let w = bit(w, "transform_8x8_mode_flag"@);
    let matrix = bit_set(w, "pic_scaling_matrix_present_flag"@);
    let w = bit(w, "pic_scaling_matrix_present_flag"@);
    let w = if matrix {
        scaling_matrix(
            w,
            "pic_scaling_list_present_flag"@,
            0,
            6 + transform * (if st.chroma_format_idc != 3 {
                2int
            } else {
                6int
            }),
        )
    } else {
        w
    };
    se(w, "second_chroma_qp_index_offset"@)
}

/// The first part of a picture parameter set, up to the slice groups.
pub open spec fn pps_head(w: Walk, st: H264State) -> Pass {
    let w = ue(w, "pic_parameter_set_id"@);
    let w = ue(w, "seq_parameter_set_id"@);
    let st = H264State { entropy_coding_mode_flag: bit_set(w, "entropy_coding_mode_flag"@), ..st };
    let w = bit(w, "entropy_coding_mode_flag"@);
    let st = H264State {
        bottom_field_pic_order_in_frame_present_flag: bit_set(
            w,
            "bottom_field_pic_order_in_frame_present_flag"@,
        ),
        ..st
    };
    let w = bit(w, "bottom_field_pic_order_in_frame_present_flag"@);
    let groups = ue_value(w, "num_slice_groups_minus1"@);
    let w = ue(w, "num_slice_groups_minus1"@);
    let st = H264State { num_slice_groups_minus1: groups, ..st };
    if groups > 0 {
        slice_groups(w, st)
    } else {
        Pass { w, st }
    }
}

/// The part of a picture parameter set about prediction and quantisation.
pub open spec fn pps_body(w: Walk, st: H264State) -> Pass {
    let st = H264State {
        num_ref_idx_l0_active_minus1: ue_value(w, "num_ref_idx_l0_default_active_minus1"@),
        ..st
    };
    let w = ue(w, "num_ref_idx_l0_default_active_minus1"@);
    let st = H264State {
        num_ref_idx_l1_active_minus1: ue_value(w, "num_ref_idx_l1_default_active_minus1"@),
        ..st
    };
    let w = ue(w, "num_ref_idx_l1_default_active_minus1"@);
    let st = H264State { weighted_pred_flag: bit_set(w, "weighted_pred_flag"@), ..st };
    let w = bit(w, "weighted_pred_flag"@);
    let st = H264State { weighted_bipred_idc: bits_value(w, "weighted_bipred_idc"@, 2), ..st };
    let w = bits(w, "weighted_bipred_idc"@, 2);
    let w = se(w, "pic_init_qp_minus26"@);
    let w = se(w, "pic_init_qs_minus26"@);
    let w = se(w, "chroma_qp_index_offset"@);
    let st = H264State {
        deblocking_filter_control_present_flag: bit_set(
            w,
            "deblocking_filter_control_present_flag"@,
        ),
        ..st
    };
    let w = bit(w, "deblocking_filter_control_present_flag"@);
    let w = bit(w, "constrained_intra_pred_flag"@);
    let st = H264State {
        redundant_pic_cnt_present_flag: bit_set(w, "redundant_pic_cnt_present_flag"@),
        ..st
    };
    let w = bit(w, "redundant_pic_cnt_present_flag"@);
    Pass { w, st }
}

/// A picture parameter set.
#[verifier::opaque]
pub open spec fn pps(w: Walk, st: H264State) -> Pass {
    let p = pps_head(w, st);
    let p = pps_body(p.w, p.st);
    let w = if p.w.more_data() {
        pps_extension(p.w, p.st)
    } else {
        p.w
    };
    Pass { w: w.payload("trailing_bits"@), st: p.st }
}

/// A unit that is carried through as it is.
pub open spec fn filler(w: Walk) -> Walk {
    w.payload("filler_data"@)
}

/// The modifications of one reference picture list, up to the first
/// `modification_of_pic_nums_idc` that stands for none. A walk that is not
/// well formed stays as it is.
pub open spec fn modifications(w: Walk) -> Walk
    decreases w.fuel(),
{
    let idc = ue_value(w, "modification_of_pic_nums_idc"@);
    let w1 = ue(w, "modification_of_pic_nums_idc"@);
    if !w.wf() || w.failed() {
        w
    } else if w1.failed() {
        w1
    } else {
        let operand = if idc == 0 || idc == 1 {
            Some("abs_diff_pic_num_minus1"@)
        } else if idc == 2 {
            Some("long_term_pic_num"@)
        } else if idc == 4 || idc == 5 {
            Some("abs_diff_view_idx_minus1"@)
        } else {
            None
        };
        match operand {
            Some(name) => {
                proof {
                    lemma_field_fuel(
                        w,
                        "modification_of_pic_nums_idc"@,
                        FieldType::UnsignedExpGolomb,
                        0,
                    );
                    lemma_field_fuel(w1, name, FieldType::UnsignedExpGolomb, 0);
                }
                modifications(ue(w1, name))
            },
            None => w1,
        }
    }
}

/// The modification of the reference picture lists of a slice.
pub open spec fn ref_pic_list_modification(w: Walk, slice_type: SliceType) -> Walk {
    let w = if slice_type != SliceType::I && slice_type != SliceType::SI {
        let present = bit_set(w, "ref_pic_list_modification_flag_l0"@);
        let w = bit(w, "ref_pic_list_modification_flag_l0"@);
        if present {
            modifications(w)
        } else {
            w
        }
    } else {
        w
    };
    if slice_type == SliceType::B {
        let present = bit_set(w, "ref_pic_list_modification_flag_l1"@);
        let w = bit(w, "ref_pic_list_modification_flag_l1"@);
        if present {
            modifications(w)
        } else {
            w
        }
    } else {
        w
    }
}

/// The names of the weights of one reference picture list.
pub struct WeightNames {
    pub luma_flag: Seq<char>,
    pub luma_weight: Seq<char>,
    pub luma_offset: Seq<char>,
    pub chroma_flag: Seq<char>,
    pub chroma_weight: Seq<char>,
    pub chroma_offset: Seq<char>,
}

/// The names of the weights of list 0, or of list 1.
pub open spec fn weight_names(second: bool) -> WeightNames {
    if second {
        WeightNames {
            luma_flag: "luma_weight_l1_flag"@,
            luma_weight: "luma_weight_l1"@,
            luma_offset: "luma_offset_l1"@,
            chroma_flag: "chroma_weight_l1_flag"@,
            chroma_weight: "chroma_weight_l1"@,
            chroma_offset: "chroma_offset_l1"@,
        }
    } else {
        WeightNames {
            luma_flag: "luma_weight_l0_flag"@,
            luma_weight: "luma_weight_l0"@,
            luma_offset: "luma_offset_l0"@,
            chroma_flag: "chroma_weight_l0_flag"@,
            chroma_weight: "chroma_weight_l0"@,
            chroma_offset: "chroma_offset_l0"@,
        }
    }
}

/// The weights of reference `i` of one list.
pub open spec fn weights_of(w: Walk, names: WeightNames, chroma: bool, i: int) -> Walk {
    let luma = bit_set(w, names.luma_flag);
    let w = bit(w, names.luma_flag);
    let w = if luma {
        se(se(w, indexed(names.luma_weight, i)), indexed(names.luma_offset, i))
    } else {
        w
    };
    if chroma {
        let present = bit_set(w, names.chroma_flag);
        let w = bit(w, names.chroma_flag);
        if present {
            let w = se(w, indexed(indexed(names.chroma_weight, i), 0));
            let w = se(w, indexed(indexed(names.chroma_offset, i), 0));
            let w = se(w, indexed(indexed(names.chroma_weight, i), 1));
            se(w, indexed(indexed(names.chroma_offset, i), 1))
        } else {
            w
        }
    } else {
        w
    }
}

/// The weights of the references `i` up to `count` of one list.
pub open spec fn weights(w: Walk, names: WeightNames, chroma: bool, i: int, count: int) -> Walk
    decreases count - i,
{
    if i >= count || w.failed() {
        w
    } else {
        weights(weights_of(w, names, chroma, i), names, chroma, i + 1, count)
    }
}

/// The prediction weight table of a slice.
pub open spec fn pred_weight_table(w: Walk, st: H264State, slice_type: SliceType) -> Walk {
    let w = ue(w, "luma_log2_weight_denom"@);
    let chroma = !st.separate_color_plane_flag && st.chroma_format_idc != 0;
    let w = if chroma {
        ue(w, "chroma_log2_weight_denom"@)
    } else {
        w
    };
    let w = weights(w, weight_names(false), chroma, 0, st.num_ref_idx_l0_active_minus1 + 1);
    if slice_type != SliceType::B {
        weights(w, weight_names(true), chroma, 0, st.num_ref_idx_l1_active_minus1 + 1)
    } else {
        w
    }
}

/// The operands of one memory management control operation.
pub open spec fn marking_operands(w: Walk, operation: i32) -> Walk {
    let w = if operation == 1 || operation == 3 {
        ue(w, "difference_of_pic_nums_minus1"@)
    } else {
        w
    };
    let w = if operation == 2 {
        ue(w, "long_term_pic_num"@)
    } else {
        w
    };
    let w = if operation == 3 || operation == 6 {
        ue(w, "long_term_frame_idx"@)
    } else {
        w
    };
    if operation == 4 {
        ue(w, "max_long_term_frame_idx_plus1"@)
    } else {
        w
    }
}

/// The memory management control operations of a slice, up to the one
/// with the value 0. A walk that is not well formed stays as it is.
pub open spec fn markings(w: Walk) -> Walk
    decreases w.fuel(),
{
    let operation = ue_value(w, "memory_management_control_operation"@);
    let w1 = ue(w, "memory_management_control_operation"@);
    if !w.wf() || w.failed() {
        w
    } else if w1.failed() || operation == 0 {
        w1
    } else {
        proof {
            lemma_field_fuel(
                w,
                "memory_management_control_operation"@,
                FieldType::UnsignedExpGolomb,
                0,
            );
            lemma_marking_operands_fuel(w1, operation);
        }
        markings(marking_operands(w1, operation))
    }
}

/// The operands of a memory management control operation keep a walk well
/// formed and add nothing to what is left to process.
pub proof fn lemma_marking_operands_fuel(w: Walk, operation: i32)
    requires
        w.wf(),
    ensures
        marking_operands(w, operation).wf(),
        marking_operands(w, operation).fuel() <= w.fuel(),
{
    let w1 = if operation == 1 || operation == 3 {
        ue(w, "difference_of_pic_nums_minus1"@)
    } else {
        w
    };
    lemma_field_fuel(w, "difference_of_pic_nums_minus1"@, FieldType::UnsignedExpGolomb, 0);
    let w2 = if operation == 2 {
        ue(w1, "long_term_pic_num"@)
    } else {
        w1
    };
    lemma_field_fuel(w1, "long_term_pic_num"@, FieldType::UnsignedExpGolomb, 0);
    let w3 = if operation == 3 || operation == 6 {
        ue(w2, "long_term_frame_idx"@)
    } else {
        w2
    };
    lemma_field_fuel(w2, "long_term_frame_idx"@, FieldType::UnsignedExpGolomb, 0);
    lemma_field_fuel(w3, "max_long_term_frame_idx_plus1"@, FieldType::UnsignedExpGolomb, 0);
}

/// The marking of decoded reference pictures of a slice.
pub open spec fn dec_ref_pic_marking(w: Walk, idr_pic_flag: bool) -> Walk {
    if idr_pic_flag {
        bit(bit(w, "no_output_of_prior_pics_flag"@), "long_term_reference_flag"@)
    } else {
        let adaptive = bit_set(w, "adaptive_ref_pic_marking_mode_flag"@);
        let w = bit(w, "adaptive_ref_pic_marking_mode_flag"@);
        if adaptive {
            markings(w)
        } else {
            w
        }
    }
}

/// The width of `slice_group_change_cycle`, or -1 where the change rate
/// is not positive.
pub open spec fn change_cycle_width(st: H264State) -> int {
    let units = st.pic_size_in_map_units_minus1 + 1;
    let rate = st.slice_group_change_rate_minus1 + 1;
    if rate <= 0 {
        -1
    } else {
        ceil_log2((units + rate - 1) / rate + 1) as int
    }
}

/// The walk of a slice header before its `frame_num`.
pub open spec fn before_frame_num(w: Walk, st: H264State) -> Walk {
    let w = ue(w, "pic_parameter_set_id"@);
    if st.separate_color_plane_flag {
        bits(w, "color_plane_id"@, 2)
    } else {
        w
    }
}

/// Whether the slice is a field, for the walk behind `frame_num`.
pub open spec fn is_field_pic(w: Walk, st: H264State) -> bool {
    !st.frame_mbs_only_flag && bit_set(w, "field_pic_flag"@)
}

/// The walk of a slice header before its picture order count.
pub open spec fn before_pic_order_cnt(w: Walk, st: H264State, nalu_type: i32) -> Walk {
    let w = sized(before_frame_num(w, st), "frame_num"@, st.log2_max_frame_num_minus4 + 4);
    let field_pic = is_field_pic(w, st);
    let w = if !st.frame_mbs_only_flag {
        let w = bit(w, "field_pic_flag"@);
        if field_pic {
            bit(w, "bottom_field_flag"@)
        } else {
            w
        }
    } else {
        w
    };
    if nalu_type == 5 {
        ue(w, "idr_pic_id"@)
    } else {
        w
    }
}

/// The first part of a slice header, up to the picture order count.
pub open spec fn slice_header_start(w: Walk, st: H264State, nalu_type: i32) -> Walk {
    let field_pic = is_field_pic(
        sized(before_frame_num(w, st), "frame_num"@, st.log2_max_frame_num_minus4 + 4),
        st,
    );
    let w = before_pic_order_cnt(w, st, nalu_type);
    let w = if st.pic_order_cnt_type == 0 {
        let w = sized(w, "pic_order_cnt_lsb"@, st.log2_max_pic_order_cnt_lsb_minus4 + 4);
        if st.bottom_field_pic_order_in_frame_present_flag && !field_pic {
            se(w, "delta_pic_order_cnt_bottom"@)
        } else {
            w
        }
    } else {
        w
    };
    let w = if st.pic_order_cnt_type == 1 && !st.delta_pic_order_always_zero_flag {
        se(w, "delta_pic_order_cnt"@)
    } else {
        w
    };
    if st.redundant_pic_cnt_present_flag {
        ue(w, "redundant_pic_cnt"@)
    } else {
        w
    }
}

/// The part of a slice header about the numbers of reference pictures:
/// the numbers themselves stand only where the flag says that they override
/// those of the picture parameter set, the one of list 1 only in a B slice.
pub open spec fn slice_header_counts(w: Walk, slice_type: SliceType) -> Walk {
    let w = if slice_type == SliceType::B {
        bit(w, "direct_spatial_mv_pred_flag"@)
    } else {
        w
    };
    if slice_type == SliceType::P || slice_type == SliceType::SP || slice_type == SliceType::B {
        let overridden = bit_set(w, "num_ref_idx_active_override_flag"@);
        let w = bit(w, "num_ref_idx_active_override_flag"@);
        if overridden {
            let w = ue(w, "num_ref_idx_l0_active_minus1"@);
            if slice_type == SliceType::B {
                ue(w, "num_ref_idx_l1_active_minus1"@)
            } else {
                w
            }
        } else {
            w
        }
    } else {
        w
    }
}

/// The name of the subnode that holds the modification of the reference
/// picture lists.
pub open spec fn list_modification_name(nalu_type: i32) -> Seq<char> {
    if nalu_type == 20 || nalu_type == 21 {
        "ref_pic_list_mvc_modification"@
    } else {
        "ref_pic_list_modification"@
    }
}

/// Whether a slice has a prediction weight table.
pub open spec fn has_weight_table(st: H264State, slice_type: SliceType) -> bool {
    (st.weighted_pred_flag && (slice_type == SliceType::P || slice_type == SliceType::SP)) || (
    st.weighted_bipred_idc == 1 && slice_type == SliceType::B)
}

/// The part of a slice header about reference pictures.
pub open spec fn slice_header_refs(
    w: Walk,
    st: H264State,
    slice_type: SliceType,
    nalu_type: i32,
    nal_ref_idc: i32,
) -> Walk {
    let w = slice_header_counts(w, slice_type);
    let list_name = list_modification_name(nalu_type);
    let w = subnode(w, list_name, ref_pic_list_modification(w.inner(list_name), slice_type));
    let w = if has_weight_table(st, slice_type) {
        subnode(
            w,
            "pred_weight_table"@,
            pred_weight_table(w.inner("pred_weight_table"@), st, slice_type),
        )
    } else {
        w
    };
    if nal_ref_idc != 0 {
        subnode(
            w,
            "dec_ref_pic_marking"@,
            dec_ref_pic_marking(w.inner("dec_ref_pic_marking"@), nalu_type == 5),
        )
    } else {
        w
    }
}

/// The last part of a slice header: quantisation, deblocking and slice
/// groups.
pub open spec fn slice_header_end(w: Walk, st: H264State, slice_type: SliceType) -> Walk {
    let w = if st.entropy_coding_mode_flag && slice_type != SliceType::I && slice_type
        != SliceType::SI {
        ue(w, "cabac_init_idc"@)
    } else {
        w
    };
    let w = se(w, "slice_qp_delta"@);
    let w = if slice_type == SliceType::SP {
        bit(w, "sp_for_switch_flag"@)
    } else {
        w
    };
    let w = if slice_type == SliceType::SP || slice_type == SliceType::SI {
        se(w, "slice_qs_delta"@)
    } else {
        w
    };
    let w = if st.deblocking_filter_control_present_flag {
        let disabled = ue_value(w, "disable_deblocking_filter_idc"@);
        let w = ue(w, "disable_deblocking_filter_idc"@);
        if disabled != 1 {
            se(se(w, "slice_alpha_c0_offset_div2"@), "slice_beta_offset_div2"@)
        } else {
            w
        }
    } else {
        w
    };
    if st.num_slice_groups_minus1 > 0 && 3 <= st.slice_group_map_type <= 5 {
        sized(w, "slice_group_change_cycle"@, change_cycle_width(st))
    } else {
        w
    }
}

/// A slice header.
pub open spec fn slice_header(w: Walk, st: H264State, nalu_type: i32, nal_ref_idc: i32) -> Walk {
    let w = ue(w, "first_mb_in_slice"@);
    let slice_type = slice_type_of(ue_value(w, "slice_type"@) as int);
    let w = ue(w, "slice_type"@);
    let w = slice_header_start(w, st, nalu_type);
    let w = slice_header_refs(w, st, slice_type, nalu_type, nal_ref_idc);
    slice_header_end(w, st, slice_type)
}

/// A slice: its header, and the slice data carried through as it is.
pub open spec fn slice(w: Walk, st: H264State, nalu_type: i32, nal_ref_idc: i32) -> Walk {
    let w = subnode(
        w,
        "slice_header"@,
        slice_header(w.inner("slice_header"@), st, nalu_type, nal_ref_idc),
    );
    w.payload("slice_payload"@)
}

/// What follows the header of a NAL unit of the given type: a slice, a
/// parameter set or a payload carried through as it is.
pub open spec fn nalu_body(w: Walk, st: H264State, nalu_type: i32, nal_ref_idc: i32) -> Pass {
    if 1 <= nalu_type <= 5 {
        Pass { w: subnode(w, "slice"@, slice(w.inner("slice"@), st, nalu_type, nal_ref_idc)), st }
    } else if nalu_type == 7 {
        let p = sps(w.inner("sps"@), st);
        Pass { w: subnode(w, "sps"@, p.w), st: p.st }
    } else if nalu_type == 8 {
        let p = pps(w.inner("pps"@), st);
        Pass { w: subnode(w, "pps"@, p.w), st: p.st }
    } else if nalu_type == 12 {
        Pass { w: subnode(w, "filler_nalu"@, filler(w.inner("filler_nalu"@))), st }
    } else {
        Pass { w: subnode(w, "unparsed_nalu"@, filler(w.inner("unparsed_nalu"@))), st }
    }
}

/// The type of the NAL unit at the head of the walk.
pub open spec fn nal_unit_type(w: Walk) -> i32 {
    let w = bit(w, "forbidden_zero_bit"@);
    let w = bits(w, "nal_ref_idc"@, 2);
    bits_value(w, "nal_unit_type"@, 5)
}

/// A NAL unit: its header and, by its type, a slice, a parameter set or a
/// payload carried through as it is.
#[verifier::opaque]
pub open spec fn nalu(w: Walk, st: H264State) -> Pass {
    let w = bit(w, "forbidden_zero_bit"@);
    let nal_ref_idc = bits_value(w, "nal_ref_idc"@, 2);
    let w = bits(w, "nal_ref_idc"@, 2);
    let nalu_type = bits_value(w, "nal_unit_type"@, 5);
    let w = bits(w, "nal_unit_type"@, 5);
    nalu_body(w, st, nalu_type, nal_ref_idc)
}

} // verus!
