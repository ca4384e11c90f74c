//! The H.264 syntax structures as procedures over a processor, the
//! splitting of a byte stream into NAL units, and the two directions of the
//! whole: bytes to trees, and text to bytes.

use crate::codec::FieldType;
use crate::error::{ErrorKind, Fault, SyntaxError};
use crate::grammar::{
    bit, bit_set, bits, bits_value, change_cycle_width, corners, dec_ref_pic_marking, filler,
    lemma_marking_operands_fuel, marking_operands, markings, modifications, nalu, pps, pps_body,
    pps_extension, pps_head, pred_weight_table, ref_pic_list_modification, repeat_field,
    scaling_list, scaling_matrix, se, se_value, sized, slice, slice_groups, slice_header,
    slice_header_counts, slice_header_end, slice_header_refs, slice_header_start, sps, sps_frame,
    sps_high, sps_order, ue, ue_value, weight_names, weights, weights_of,
};
use crate::machine::{lemma_field_fuel, Machine};
use crate::reader::BitstreamReader;
use crate::stream::{
    decode_stream, decode_units, encode_text, encode_trees, holds_bits, split_from, split_units,
    start_code_bits, start_code_len,
};
use crate::text::{split_lines, try_syntax_elements_from_string};
use crate::writer::BitstreamWriter;
use crate::numeral::{indexed, indexed_name, indexed_name2};
use crate::processor::{walk_of, BitstreamProcessor};
use crate::state::{ceil_log2_of, int_to_slice_type, H264State, SliceType};
use crate::tree::{forest, lemma_node_view, Element, SyntaxElement, SyntaxNode};
use vstd::prelude::*;
use vstd::slice::slice_subrange;

verus! {

/// Processes a one-bit flag and says whether it is set.
fn flag<P: BitstreamProcessor>(node: &mut SyntaxNode, bitstream: &mut P, name: &str) -> (set: bool)
    requires
        old(bitstream).ready(),
    ensures
        final(bitstream).ready(),
        final(node).name == old(node).name,
        walk_of(final(bitstream), final(node)) == bit(walk_of(old(bitstream), old(node)), name@),
        set == bit_set(walk_of(old(bitstream), old(node)), name@),
{
    bitstream.field(node, name, FieldType::Boolean, 1) != 0
}

/// Processes an unsigned exp-Golomb field.
fn unsigned<P: BitstreamProcessor>(node: &mut SyntaxNode, bitstream: &mut P, name: &str) -> (val:
    i32)
    requires
        old(bitstream).ready(),
    ensures
        final(bitstream).ready(),
        final(node).name == old(node).name,
        walk_of(final(bitstream), final(node)) == ue(walk_of(old(bitstream), old(node)), name@),
        val == ue_value(walk_of(old(bitstream), old(node)), name@),
{
    bitstream.field(node, name, FieldType::UnsignedExpGolomb, 0)
}

/// Processes a signed exp-Golomb field.
fn signed<P: BitstreamProcessor>(node: &mut SyntaxNode, bitstream: &mut P, name: &str) -> (val:
    i32)
    requires
        old(bitstream).ready(),
    ensures
        final(bitstream).ready(),
        final(node).name == old(node).name,
        walk_of(final(bitstream), final(node)) == se(walk_of(old(bitstream), old(node)), name@),
        val == se_value(walk_of(old(bitstream), old(node)), name@),
{
    bitstream.field(node, name, FieldType::SignedExpGolomb, 0)
}

/// Processes an unsigned field of `n` bits.
fn fixed<P: BitstreamProcessor>(node: &mut SyntaxNode, bitstream: &mut P, name: &str, n: u8) -> (val:
    i32)
    requires
        old(bitstream).ready(),
        n <= 64,
    ensures
        final(bitstream).ready(),
        final(node).name == old(node).name,
        walk_of(final(bitstream), final(node)) == bits(walk_of(old(bitstream), old(node)), name@, n),
        val == bits_value(walk_of(old(bitstream), old(node)), name@, n),
{
    bitstream.field(node, name, FieldType::UnsignedInt, n)
}

/// Processes an unsigned field whose width was computed, and fails where
/// the width is not between 0 and 64.
fn sized_field<P: BitstreamProcessor>(
    node: &mut SyntaxNode,
    bitstream: &mut P,
    name: &str,
    width: i64,
)
    requires
        old(bitstream).ready(),
    ensures
        final(bitstream).ready(),
        final(node).name == old(node).name,
        walk_of(final(bitstream), final(node)) == sized(
            walk_of(old(bitstream), old(node)),
            name@,
            width as int,
        ),
{
    if 0 <= width && width <= 64 {
        bitstream.field(node, name, FieldType::UnsignedInt, width as u8);
    } else {
        bitstream.raise(ErrorKind::BadWidth, name);
    }
}

/// Processes the fields `base[0]` up to `base[count - 1]`.
fn process_repeated<P: BitstreamProcessor>(
    node: &mut SyntaxNode,
    bitstream: &mut P,
    base: &str,
    field_type: FieldType,
    n: u8,
    count: i64,
)
    requires
        old(bitstream).ready(),
        crate::codec::legal_width(field_type, n),
    ensures
        final(bitstream).ready(),
        final(node).name == old(node).name,
        walk_of(final(bitstream), final(node)) == repeat_field(
            walk_of(old(bitstream), old(node)),
            base@,
            field_type,
            n,
            0,
            count as int,
        ),
{
    let mut i: i64 = 0;
    while i < count && !bitstream.failed()
        invariant
            0 <= i,
            bitstream.ready(),
            crate::codec::legal_width(field_type, n),
            node.name == old(node).name,
            repeat_field(walk_of(bitstream, node), base@, field_type, n, i as int, count as int)
                == repeat_field(
                walk_of(old(bitstream), old(node)),
                base@,
                field_type,
                n,
                0,
                count as int,
            ),
        decreases count - i,
    {
        let name = indexed_name(base, i);
        bitstream.field(node, name.as_str(), field_type, n);
        i = i + 1;
    }
}

/// Processes a scaling list of `scaling_list_size` entries.
pub fn process_scaling_list<P: BitstreamProcessor>(
    node: &mut SyntaxNode,
    bitstream: &mut P,
    scaling_list_size: usize,
)
    requires
        old(bitstream).ready(),
    ensures
        final(bitstream).ready(),
        final(node).name == old(node).name,
        walk_of(final(bitstream), final(node)) == scaling_list(
            walk_of(old(bitstream), old(node)),
            scaling_list_size as nat,
            8,
            8,
        ),
{
    let mut last_scale: i64 = 8;
    let mut next_scale: i64 = 8;
    let mut i: usize = 0;
    while i < scaling_list_size
        invariant
            i <= scaling_list_size,
            bitstream.ready(),
            node.name == old(node).name,
            0 <= next_scale < 256,
            0 <= last_scale < 256,
            scaling_list(
                walk_of(bitstream, node),
                (scaling_list_size - i) as nat,
                last_scale as int,
                next_scale as int,
            ) == scaling_list(walk_of(old(bitstream), old(node)), scaling_list_size as nat, 8, 8),
        decreases scaling_list_size - i,
    {
        if next_scale != 0 {
            let delta_scale = signed(node, bitstream, "delta_scale");
            let sum: i64 = last_scale + delta_scale as i64 + 256;
            next_scale = if sum >= 0 {
                sum % 256
            } else {
                255 - (-(sum + 1)) % 256
            };
        }
        let curr_scale = if next_scale == 0 {
            last_scale
        } else {
            next_scale
        };
        last_scale = curr_scale;
        i = i + 1;
    }
}

/// Processes the scaling lists of a scaling matrix, each behind its flag
/// `base[i]`.
fn process_scaling_matrix<P: BitstreamProcessor>(
    node: &mut SyntaxNode,
    bitstream: &mut P,
    base: &str,
    count: i64,
)
    requires
        old(bitstream).ready(),
    ensures
        final(bitstream).ready(),
        final(node).name == old(node).name,
        walk_of(final(bitstream), final(node)) == scaling_matrix(
            walk_of(old(bitstream), old(node)),
            base@,
            0,
            count as int,
        ),
{
    let mut i: i64 = 0;
    while i < count && !bitstream.failed()
        invariant
            0 <= i,
            bitstream.ready(),
            node.name == old(node).name,
            scaling_matrix(walk_of(bitstream, node), base@, i as int, count as int)
                == scaling_matrix(walk_of(old(bitstream), old(node)), base@, 0, count as int),
        decreases count - i,
    {
        let name = indexed_name(base, i);
        let scale_list_present = flag(node, bitstream, name.as_str());
        if scale_list_present {
            if i < 6 {
                let mut sub = bitstream.subnode(node, "scaling_list4x4");
                process_scaling_list(&mut sub, bitstream, 16);
                bitstream.end_subnode(node, "scaling_list4x4", sub);
            } else {
                let mut sub = bitstream.subnode(node, "scaling_list8x8");
                process_scaling_list(&mut sub, bitstream, 64);
                bitstream.end_subnode(node, "scaling_list8x8", sub);
            }
        }
        i = i + 1;
    }
}

/// Processes the part of a sequence parameter set that only some profiles
/// have.
fn process_sps_high<P: BitstreamProcessor>(
    node: &mut SyntaxNode,
    bitstream: &mut P,
    state: &mut H264State,
)
    requires
        old(bitstream).ready(),
    ensures
        final(bitstream).ready(),
        final(node).name == old(node).name,
        walk_of(final(bitstream), final(node)) == sps_high(
            walk_of(old(bitstream), old(node)),
            *old(state),
        ).w,
        *final(state) == sps_high(walk_of(old(bitstream), old(node)), *old(state)).st,
{
    let chroma_format_idc = unsigned(node, bitstream, "chroma_format_idc");
    state.chroma_format_idc = chroma_format_idc;
    if chroma_format_idc == 3 {
        state.separate_color_plane_flag = flag(node, bitstream, "separate_color_plane_flag");
    }
    unsigned(node, bitstream, "bit_depth_luma_minus8");
    unsigned(node, bitstream, "bit_depth_chroma_minus8");
    flag(node, bitstream, "qpprime_y_zero_transform_bypass_flag");
    let seq_scaling_matrix_present_flag = flag(node, bitstream, "seq_scaling_matrix_present_flag");
    if seq_scaling_matrix_present_flag {
        process_scaling_matrix(
            node,
            bitstream,
            "seq_scaling_list_present_flag",
            if chroma_format_idc != 3 {
                8
            } else {
                12
            },
        );
    }
}

/// Processes the frame numbering and picture order count part of a
/// sequence parameter set.
fn process_sps_order<P: BitstreamProcessor>(
    node: &mut SyntaxNode,
    bitstream: &mut P,
    state: &mut H264State,
)
    requires
        old(bitstream).ready(),
    ensures
        final(bitstream).ready(),
        final(node).name == old(node).name,
        walk_of(final(bitstream), final(node)) == sps_order(
            walk_of(old(bitstream), old(node)),
            *old(state),
        ).w,
        *final(state) == sps_order(walk_of(old(bitstream), old(node)), *old(state)).st,
{
    state.log2_max_frame_num_minus4 = unsigned(node, bitstream, "log2_max_frame_num_minus4");
    let pic_order_cnt_type = unsigned(node, bitstream, "pic_order_cnt_type");
    state.pic_order_cnt_type = pic_order_cnt_type;
    if pic_order_cnt_type == 0 {
        state.log2_max_pic_order_cnt_lsb_minus4 = unsigned(
            node,
            bitstream,
            "log2_max_pic_order_cnt_lsb_minus4",
        );
    } else if pic_order_cnt_type == 1 {
        state.delta_pic_order_always_zero_flag = flag(
            node,
            bitstream,
            "delta_pic_order_always_zero_flag",
        );
        signed(node, bitstream, "offset_for_non_ref_pic");
        signed(node, bitstream, "offset_for_top_to_bottom_field");
        let num_ref_frames_in_pic_order_cnt_cycle = unsigned(
            node,
            bitstream,
            "num_ref_frames_in_pic_order_cnt_cycle",
        );
        process_repeated(
            node,
            bitstream,
            "offset_for_ref_frame",
            FieldType::SignedExpGolomb,
            0,
            num_ref_frames_in_pic_order_cnt_cycle as i64,
        );
    }
}

/// Processes the frame size and cropping part of a sequence parameter set,
/// and what is left of the unit.
fn process_sps_frame<P: BitstreamProcessor>(
    node: &mut SyntaxNode,
    bitstream: &mut P,
    state: &mut H264State,
)
    requires
        old(bitstream).ready(),
    ensures
        final(bitstream).ready(),
        final(node).name == old(node).name,
        walk_of(final(bitstream), final(node)) == sps_frame(
            walk_of(old(bitstream), old(node)),
            *old(state),
        ).w,
        *final(state) == sps_frame(walk_of(old(bitstream), old(node)), *old(state)).st,
{
    unsigned(node, bitstream, "max_num_ref_frames");
    flag(node, bitstream, "gaps_in_frame_num_value_allowed_flag");
    unsigned(node, bitstream, "pic_width_in_mbs_minus1");
    unsigned(node, bitstream, "pic_height_in_mbs_minus1");
    let frame_mbs_only_flag = flag(node, bitstream, "frame_mbs_only_flag");
    state.frame_mbs_only_flag = frame_mbs_only_flag;
    if !frame_mbs_only_flag {
        flag(node, bitstream, "mb_adaptive_frame_field_flag");
    }
    flag(node, bitstream, "direct_8x8_inference_flag");
    let frame_cropping_flag = flag(node, bitstream, "frame_cropping_flag");
    if frame_cropping_flag {
        unsigned(node, bitstream, "frame_crop_left_offset");
        unsigned(node, bitstream, "frame_crop_right_offset");
        unsigned(node, bitstream, "frame_crop_top_offset");
        unsigned(node, bitstream, "frame_crop_bottom_offset");
    }
    let vui_params = flag(node, bitstream, "vui_parameters_present_flag");
    bitstream.payload(
        node,
        if vui_params {
            "unparsed_vui_params"
        } else {
            "trailing_bits"
        },
    );
}

/// Whether the profile has the chroma format, bit depths and scaling
/// matrix in its sequence parameter set.
fn has_high_profile_fields(profile_idc: i32) -> (high: bool)
    ensures
        high == crate::grammar::is_high_profile(profile_idc),
{
    profile_idc == 100 || profile_idc == 110 || profile_idc == 122 || profile_idc == 244
        || profile_idc == 44 || profile_idc == 83 || profile_idc == 86 || profile_idc == 118
        || profile_idc == 128 || profile_idc == 138 || profile_idc == 139 || profile_idc == 134
        || profile_idc == 135
}

/// Processes a sequence parameter set and records in `state` what later
/// units depend on.
pub fn process_sps<P: BitstreamProcessor>(
    node: &mut SyntaxNode,
    bitstream: &mut P,
    state: &mut H264State,
)
    requires
        old(bitstream).ready(),
    ensures
        final(bitstream).ready(),
        final(node).name == old(node).name,
        walk_of(final(bitstream), final(node)) == sps(
            walk_of(old(bitstream), old(node)),
            *old(state),
        ).w,
        *final(state) == sps(walk_of(old(bitstream), old(node)), *old(state)).st,
{
    reveal(sps);
    let profile_idc = fixed(node, bitstream, "profile_idc", 8);
    flag(node, bitstream, "constraint_set0_flag");
    flag(node, bitstream, "constraint_set1_flag");
    flag(node, bitstream, "constraint_set2_flag");
    flag(node, bitstream, "constraint_set3_flag");
    flag(node, bitstream, "constraint_set4_flag");
    flag(node, bitstream, "constraint_set5_flag");
    fixed(node, bitstream, "reserved_zero_2bits", 2);
    fixed(node, bitstream, "level_idc", 8);
    unsigned(node, bitstream, "seq_paramter_set_id");
    if has_high_profile_fields(profile_idc) {
        process_sps_high(node, bitstream, state);
    }
    process_sps_order(node, bitstream, state);
    process_sps_frame(node, bitstream, state);
}

/// Processes the corner pairs `top_left[i]`, `bottom_right[i]` of a slice
/// group map.
fn process_corners<P: BitstreamProcessor>(node: &mut SyntaxNode, bitstream: &mut P, count: i64)
    requires
        old(bitstream).ready(),
    ensures
        final(bitstream).ready(),
        final(node).name == old(node).name,
        walk_of(final(bitstream), final(node)) == corners(
            walk_of(old(bitstream), old(node)),
            0,
            count as int,
        ),
{
    let mut i: i64 = 0;
    while i < count && !bitstream.failed()
        invariant
            0 <= i,
            bitstream.ready(),
            node.name == old(node).name,
            corners(walk_of(bitstream, node), i as int, count as int) == corners(
                walk_of(old(bitstream), old(node)),
                0,
                count as int,
            ),
        decreases count - i,
    {
        let top_left = indexed_name("top_left", i);
        unsigned(node, bitstream, top_left.as_str());
        let bottom_right = indexed_name("bottom_right", i);
        unsigned(node, bitstream, bottom_right.as_str());
        i = i + 1;
    }
}

/// Processes the slice group map of a picture parameter set.
fn process_slice_groups<P: BitstreamProcessor>(
    node: &mut SyntaxNode,
    bitstream: &mut P,
    state: &mut H264State,
)
    requires
        old(bitstream).ready(),
        old(state).num_slice_groups_minus1 > 0,
    ensures
        final(bitstream).ready(),
        final(node).name == old(node).name,
        walk_of(final(bitstream), final(node)) == slice_groups(
            walk_of(old(bitstream), old(node)),
            *old(state),
        ).w,
        *final(state) == slice_groups(walk_of(old(bitstream), old(node)), *old(state)).st,
{
    let num_slice_groups_minus1 = state.num_slice_groups_minus1;
    let slice_group_map_type = unsigned(node, bitstream, "slice_group_map_type");
    state.slice_group_map_type = slice_group_map_type;
    if slice_group_map_type == 0 {
        process_repeated(
            node,
            bitstream,
            "run_length_minus1",
            FieldType::UnsignedExpGolomb,
            0,
            num_slice_groups_minus1 as i64 + 1,
        );
    } else if slice_group_map_type == 2 {
        process_corners(node, bitstream, num_slice_groups_minus1 as i64);
    } else if slice_group_map_type >= 3 && slice_group_map_type <= 5 {
        flag(node, bitstream, "slice_group_change_direction_flag");
        state.slice_group_change_rate_minus1 = unsigned(
            node,
            bitstream,
            "slice_group_change_rate_minus1",
        );
    } else if slice_group_map_type == 6 {
        let pic_size_in_map_units_minus1 = unsigned(node, bitstream, "pic_size_in_map_units_minus1");
        state.pic_size_in_map_units_minus1 = pic_size_in_map_units_minus1;
        let width = ceil_log2_of(num_slice_groups_minus1 as i64 + 1);
        process_repeated(
            node,
            bitstream,
            "slice_group_id",
            FieldType::UnsignedInt,
            width,
            pic_size_in_map_units_minus1 as i64 + 1,
        );
    }
}

/// Processes the part of a picture parameter set that is there where more
/// than the closing bits follow.
fn process_pps_extension<P: BitstreamProcessor>(
    node: &mut SyntaxNode,
    bitstream: &mut P,
    state: &H264State,
)
    requires
        old(bitstream).ready(),
    ensures
        final(bitstream).ready(),
        final(node).name == old(node).name,
        walk_of(final(bitstream), final(node)) == pps_extension(
            walk_of(old(bitstream), old(node)),
            *state,
        ),
{
    let transform_8x8_mode_flag = bitstream.field(
        node,
        "transform_8x8_mode_flag",
        FieldType::Boolean,
        1,
    );
    let pic_scaling_matrix_present_flag = flag(node, bitstream, "pic_scaling_matrix_present_flag");
    if pic_scaling_matrix_present_flag {
        let per_flag: i64 = if state.chroma_format_idc != 3 {
            2
        } else {
            6
        };
        process_scaling_matrix(
            node,
            bitstream,
            "pic_scaling_list_present_flag",
            6 + transform_8x8_mode_flag as i64 * per_flag,
        );
    }
    signed(node, bitstream, "second_chroma_qp_index_offset");
}

/// Processes the first part of a picture parameter set, up to the slice
/// groups.
fn process_pps_head<P: BitstreamProcessor>(
    node: &mut SyntaxNode,
    bitstream: &mut P,
    state: &mut H264State,
)
    requires
        old(bitstream).ready(),
    ensures
        final(bitstream).ready(),
        final(node).name == old(node).name,
        walk_of(final(bitstream), final(node)) == pps_head(
            walk_of(old(bitstream), old(node)),
            *old(state),
        ).w,
        *final(state) == pps_head(walk_of(old(bitstream), old(node)), *old(state)).st,
{
    unsigned(node, bitstream, "pic_parameter_set_id");
    unsigned(node, bitstream, "seq_parameter_set_id");
    state.entropy_coding_mode_flag = flag(node, bitstream, "entropy_coding_mode_flag");
    state.bottom_field_pic_order_in_frame_present_flag = flag(
        node,
        bitstream,
        "bottom_field_pic_order_in_frame_present_flag",
    );
    let num_slice_groups_minus1 = unsigned(node, bitstream, "num_slice_groups_minus1");
    state.num_slice_groups_minus1 = num_slice_groups_minus1;
    if num_slice_groups_minus1 > 0 {
        process_slice_groups(node, bitstream, state);
    }
}

/// Processes the part of a picture parameter set about prediction and
/// quantisation.
fn process_pps_body<P: BitstreamProcessor>(
    node: &mut SyntaxNode,
    bitstream: &mut P,
    state: &mut H264State,
)
    requires
        old(bitstream).ready(),
    ensures
        final(bitstream).ready(),
        final(node).name == old(node).name,
        walk_of(final(bitstream), final(node)) == pps_body(
            walk_of(old(bitstream), old(node)),
            *old(state),
        ).w,
        *final(state) == pps_body(walk_of(old(bitstream), old(node)), *old(state)).st,
{
    state.num_ref_idx_l0_active_minus1 = unsigned(
        node,
        bitstream,
        "num_ref_idx_l0_default_active_minus1",
    );
    state.num_ref_idx_l1_active_minus1 = unsigned(
        node,
        bitstream,
        "num_ref_idx_l1_default_active_minus1",
    );
    state.weighted_pred_flag = flag(node, bitstream, "weighted_pred_flag");
    state.weighted_bipred_idc = fixed(node, bitstream, "weighted_bipred_idc", 2);
    signed(node, bitstream, "pic_init_qp_minus26");
    signed(node, bitstream, "pic_init_qs_minus26");
    signed(node, bitstream, "chroma_qp_index_offset");
    state.deblocking_filter_control_present_flag = flag(
        node,
        bitstream,
        "deblocking_filter_control_present_flag",
    );
    flag(node, bitstream, "constrained_intra_pred_flag");
    state.redundant_pic_cnt_present_flag = flag(node, bitstream, "redundant_pic_cnt_present_flag");
}

/// Processes a picture parameter set and records in `state` what later
/// units depend on.
pub fn process_pps<P: BitstreamProcessor>(
    node: &mut SyntaxNode,
    bitstream: &mut P,
    state: &mut H264State,
)
    requires
        old(bitstream).ready(),
    ensures
        final(bitstream).ready(),
        final(node).name == old(node).name,
        walk_of(final(bitstream), final(node)) == pps(
            walk_of(old(bitstream), old(node)),
            *old(state),
        ).w,
        *final(state) == pps(walk_of(old(bitstream), old(node)), *old(state)).st,
{
    reveal(pps);
    process_pps_head(node, bitstream, state);
    process_pps_body(node, bitstream, state);
    if bitstream.more_data(node) {
        process_pps_extension(node, bitstream, state);
    }
    bitstream.payload(node, "trailing_bits");
}

/// Processes a unit that is carried through as it is.
pub fn process_filler<P: BitstreamProcessor>(node: &mut SyntaxNode, bitstream: &mut P)
    requires
        old(bitstream).ready(),
    ensures
        final(bitstream).ready(),
        final(node).name == old(node).name,
        walk_of(final(bitstream), final(node)) == filler(walk_of(old(bitstream), old(node))),
{
    bitstream.payload(node, "filler_data");
}

/// Processes the modifications of one reference picture list.
fn process_modifications<P: BitstreamProcessor>(node: &mut SyntaxNode, bitstream: &mut P)
    requires
        old(bitstream).ready(),
    ensures
        final(bitstream).ready(),
        final(node).name == old(node).name,
        walk_of(final(bitstream), final(node)) == modifications(walk_of(old(bitstream), old(node))),
{
    proof {
        bitstream.lemma_ready();
    }
    loop
        invariant
            bitstream.ready(),
            node.name == old(node).name,
            walk_of(bitstream, node).wf(),
            modifications(walk_of(bitstream, node)) == modifications(
                walk_of(old(bitstream), old(node)),
            ),
        decreases walk_of(bitstream, node).fuel(),
    {
        let ghost before = walk_of(bitstream, node);
        let was_failed = bitstream.failed();
        let modification_of_pic_nums_idc = unsigned(node, bitstream, "modification_of_pic_nums_idc");
        if was_failed || bitstream.failed() {
            return ;
        }
        proof {
            lemma_field_fuel(
                before,
                "modification_of_pic_nums_idc"@,
                FieldType::UnsignedExpGolomb,
                0,
            );
            let w1 = walk_of(bitstream, node);
            lemma_field_fuel(w1, "abs_diff_pic_num_minus1"@, FieldType::UnsignedExpGolomb, 0);
            lemma_field_fuel(w1, "long_term_pic_num"@, FieldType::UnsignedExpGolomb, 0);
            lemma_field_fuel(w1, "abs_diff_view_idx_minus1"@, FieldType::UnsignedExpGolomb, 0);
        }
        if modification_of_pic_nums_idc == 0 || modification_of_pic_nums_idc == 1 {
            unsigned(node, bitstream, "abs_diff_pic_num_minus1");
        } else if modification_of_pic_nums_idc == 2 {
            unsigned(node, bitstream, "long_term_pic_num");
        } else if modification_of_pic_nums_idc == 4 || modification_of_pic_nums_idc == 5 {
            unsigned(node, bitstream, "abs_diff_view_idx_minus1");
        } else {
            return ;
        }
    }
}

/// Processes the modification of the reference picture lists of a slice.
pub fn process_ref_pic_list_modification<P: BitstreamProcessor>(
    node: &mut SyntaxNode,
    bitstream: &mut P,
    slice_type: SliceType,
)
    requires
        old(bitstream).ready(),
    ensures
        final(bitstream).ready(),
        final(node).name == old(node).name,
        walk_of(final(bitstream), final(node)) == ref_pic_list_modification(
            walk_of(old(bitstream), old(node)),
            slice_type,
        ),
{
    if slice_type != SliceType::I && slice_type != SliceType::SI {
        let ref_pic_list_modification_flag_l0 = flag(
            node,
            bitstream,
            "ref_pic_list_modification_flag_l0",
        );
        if ref_pic_list_modification_flag_l0 {
            process_modifications(node, bitstream);
        }
    }
    if slice_type == SliceType::B {
        let ref_pic_list_modification_flag_l1 = flag(
            node,
            bitstream,
            "ref_pic_list_modification_flag_l1",
        );
        if ref_pic_list_modification_flag_l1 {
            process_modifications(node, bitstream);
        }
    }
}

/// Processes the weights of reference `i` of list 0, or of list 1.
fn process_weights_of<P: BitstreamProcessor>(
    node: &mut SyntaxNode,
    bitstream: &mut P,
    second: bool,
    chroma: bool,
    i: i64,
)
    requires
        old(bitstream).ready(),
    ensures
        final(bitstream).ready(),
        final(node).name == old(node).name,
        walk_of(final(bitstream), final(node)) == weights_of(
            walk_of(old(bitstream), old(node)),
            weight_names(second),
            chroma,
            i as int,
        ),
{
    let luma_weight_flag = flag(
        node,
        bitstream,
        if second {
            "luma_weight_l1_flag"
        } else {
            "luma_weight_l0_flag"
        },
    );
    if luma_weight_flag {
        let weight = indexed_name(
            if second {
                "luma_weight_l1"
            } else {
                "luma_weight_l0"
            },
            i,
        );
        signed(node, bitstream, weight.as_str());
        let offset = indexed_name(
            if second {
                "luma_offset_l1"
            } else {
                "luma_offset_l0"
            },
            i,
        );
        signed(node, bitstream, offset.as_str());
    }
    if chroma {
        let chroma_weight_flag = flag(
            node,
            bitstream,
            if second {
                "chroma_weight_l1_flag"
            } else {
                "chroma_weight_l0_flag"
            },
        );
        if chroma_weight_flag {
            let mut j: i64 = 0;
            while j < 2
                invariant
                    0 <= j <= 2,
                    bitstream.ready(),
                    node.name == old(node).name,
                    j == 0 ==> weights_of(
                        walk_of(old(bitstream), old(node)),
                        weight_names(second),
                        chroma,
                        i as int,
                    ) == se(
                        se(
                            se(
                                se(
                                    walk_of(bitstream, node),
                                    indexed(indexed(weight_names(second).chroma_weight, i as int), 0),
                                ),
                                indexed(indexed(weight_names(second).chroma_offset, i as int), 0),
                            ),
                            indexed(indexed(weight_names(second).chroma_weight, i as int), 1),
                        ),
                        indexed(indexed(weight_names(second).chroma_offset, i as int), 1),
                    ),
                    j == 1 ==> weights_of(
                        walk_of(old(bitstream), old(node)),
                        weight_names(second),
                        chroma,
                        i as int,
                    ) == se(
                        se(
                            walk_of(bitstream, node),
                            indexed(indexed(weight_names(second).chroma_weight, i as int), 1),
                        ),
                        indexed(indexed(weight_names(second).chroma_offset, i as int), 1),
                    ),
                    j == 2 ==> weights_of(
                        walk_of(old(bitstream), old(node)),
                        weight_names(second),
                        chroma,
                        i as int,
                    ) == walk_of(bitstream, node),
                decreases 2 - j,
            {
                let weight = indexed_name2(
                    if second {
                        "chroma_weight_l1"
                    } else {
                        "chroma_weight_l0"
                    },
                    i,
                    j,
                );
                signed(node, bitstream, weight.as_str());
                let offset = indexed_name2(
                    if second {
                        "chroma_offset_l1"
                    } else {
                        "chroma_offset_l0"
                    },
                    i,
                    j,
                );
                signed(node, bitstream, offset.as_str());
                j = j + 1;
            }
        }
    }
}

/// Processes the weights of the references of list 0, or of list 1.
fn process_weights<P: BitstreamProcessor>(
    node: &mut SyntaxNode,
    bitstream: &mut P,
    second: bool,
    chroma: bool,
    count: i64,
)
    requires
        old(bitstream).ready(),
    ensures
        final(bitstream).ready(),
        final(node).name == old(node).name,
        walk_of(final(bitstream), final(node)) == weights(
            walk_of(old(bitstream), old(node)),
            weight_names(second),
            chroma,
            0,
            count as int,
        ),
{
    let mut i: i64 = 0;
    while i < count && !bitstream.failed()
        invariant
            0 <= i,
            bitstream.ready(),
            node.name == old(node).name,
            weights(walk_of(bitstream, node), weight_names(second), chroma, i as int, count as int)
                == weights(
                walk_of(old(bitstream), old(node)),
                weight_names(second),
                chroma,
                0,
                count as int,
            ),
        decreases count - i,
    {
        process_weights_of(node, bitstream, second, chroma, i);
        i = i + 1;
    }
}

/// Processes the prediction weight table of a slice.
pub fn process_pred_weight_table<P: BitstreamProcessor>(
    node: &mut SyntaxNode,
    bitstream: &mut P,
    state: &H264State,
    slice_type: SliceType,
)
    requires
        old(bitstream).ready(),
    ensures
        final(bitstream).ready(),
        final(node).name == old(node).name,
        walk_of(final(bitstream), final(node)) == pred_weight_table(
            walk_of(old(bitstream), old(node)),
            *state,
            slice_type,
        ),
{
    unsigned(node, bitstream, "luma_log2_weight_denom");
    let chroma_array_type = if state.separate_color_plane_flag {
        0
    } else {
        state.chroma_format_idc
    };
    if chroma_array_type != 0 {
        unsigned(node, bitstream, "chroma_log2_weight_denom");
    }
    process_weights(
        node,
        bitstream,
        false,
        chroma_array_type != 0,
        state.num_ref_idx_l0_active_minus1 as i64 + 1,
    );
    if slice_type != SliceType::B {
        process_weights(
            node,
            bitstream,
            true,
            chroma_array_type != 0,
            state.num_ref_idx_l1_active_minus1 as i64 + 1,
        );
    }
}

/// Processes the operands of one memory management control operation.
fn process_marking_operands<P: BitstreamProcessor>(
    node: &mut SyntaxNode,
    bitstream: &mut P,
    memory_management_control_operation: i32,
)
    requires
        old(bitstream).ready(),
    ensures
        final(bitstream).ready(),
        final(node).name == old(node).name,
        walk_of(final(bitstream), final(node)) == marking_operands(
            walk_of(old(bitstream), old(node)),
            memory_management_control_operation,
        ),
{
    if memory_management_control_operation == 1 || memory_management_control_operation == 3 {
        unsigned(node, bitstream, "difference_of_pic_nums_minus1");
    }
    if memory_management_control_operation == 2 {
        unsigned(node, bitstream, "long_term_pic_num");
    }
    if memory_management_control_operation == 3 || memory_management_control_operation == 6 {
        unsigned(node, bitstream, "long_term_frame_idx");
    }
    if memory_management_control_operation == 4 {
        unsigned(node, bitstream, "max_long_term_frame_idx_plus1");
    }
}

/// Processes the marking of decoded reference pictures of a slice.
pub fn process_dec_ref_pic_marking<P: BitstreamProcessor>(
    node: &mut SyntaxNode,
    bitstream: &mut P,
    idr_pic_flag: bool,
)
    requires
        old(bitstream).ready(),
    ensures
        final(bitstream).ready(),
        final(node).name == old(node).name,
        walk_of(final(bitstream), final(node)) == dec_ref_pic_marking(
            walk_of(old(bitstream), old(node)),
            idr_pic_flag,
        ),
{
    if idr_pic_flag {
        flag(node, bitstream, "no_output_of_prior_pics_flag");
        flag(node, bitstream, "long_term_reference_flag");
    } else {
        let adaptive_ref_pic_marking_mode_flag = flag(
            node,
            bitstream,
            "adaptive_ref_pic_marking_mode_flag",
        );
        if adaptive_ref_pic_marking_mode_flag {
            proof {
                bitstream.lemma_ready();
            }
            loop
                invariant
                    bitstream.ready(),
                    node.name == old(node).name,
                    walk_of(bitstream, node).wf(),
                    markings(walk_of(bitstream, node)) == dec_ref_pic_marking(
                        walk_of(old(bitstream), old(node)),
                        idr_pic_flag,
                    ),
                decreases walk_of(bitstream, node).fuel(),
            {
                let ghost before = walk_of(bitstream, node);
                let was_failed = bitstream.failed();
                let memory_management_control_operation = unsigned(
                    node,
                    bitstream,
                    "memory_management_control_operation",
                );
                if was_failed || bitstream.failed() || memory_management_control_operation == 0 {
                    return ;
                }
                proof {
                    lemma_field_fuel(
                        before,
                        "memory_management_control_operation"@,
                        FieldType::UnsignedExpGolomb,
                        0,
                    );
                    lemma_marking_operands_fuel(
                        walk_of(bitstream, node),
                        memory_management_control_operation,
                    );
                }
                process_marking_operands(node, bitstream, memory_management_control_operation);
            }
        }
    }
}

/// The width of `slice_group_change_cycle`, or -1 where the change rate is
/// not positive.
fn slice_group_change_cycle_width(state: &H264State) -> (width: i64)
    ensures
        width == change_cycle_width(*state),
{
    let units: i64 = state.pic_size_in_map_units_minus1 as i64 + 1;
    let rate: i64 = state.slice_group_change_rate_minus1 as i64 + 1;
    if rate <= 0 {
        -1
    } else if units <= 0 {
        proof {
            let n = units + rate - 1;
            assert(n / (rate as int) <= 0) by (nonlinear_arith)
                requires
                    n < rate,
                    rate > 0,
            ;
        }
        0
    } else {
        ceil_log2_of((units + rate - 1) / rate + 1) as i64
    }
}

/// Processes the first part of a slice header, up to the picture order
/// count.
fn process_slice_header_start<P: BitstreamProcessor>(
    node: &mut SyntaxNode,
    bitstream: &mut P,
    state: &H264State,
    nalu_type: i32,
)
    requires
        old(bitstream).ready(),
    ensures
        final(bitstream).ready(),
        final(node).name == old(node).name,
        walk_of(final(bitstream), final(node)) == slice_header_start(
            walk_of(old(bitstream), old(node)),
            *state,
            nalu_type,
        ),
{
    unsigned(node, bitstream, "pic_parameter_set_id");
    if state.separate_color_plane_flag {
        fixed(node, bitstream, "color_plane_id", 2);
    }
    let frame_num_size = state.log2_max_frame_num_minus4 as i64 + 4;
    sized_field(node, bitstream, "frame_num", frame_num_size);
    let mut field_pic_flag = false;
    if !state.frame_mbs_only_flag {
        field_pic_flag = flag(node, bitstream, "field_pic_flag");
        if field_pic_flag {
            flag(node, bitstream, "bottom_field_flag");
        }
    }
    let idr_pic_flag = nalu_type == 5;
    if idr_pic_flag {
        unsigned(node, bitstream, "idr_pic_id");
    }
    if state.pic_order_cnt_type == 0 {
        let pic_order_cnt_lsb_size = state.log2_max_pic_order_cnt_lsb_minus4 as i64 + 4;
        sized_field(node, bitstream, "pic_order_cnt_lsb", pic_order_cnt_lsb_size);
        if state.bottom_field_pic_order_in_frame_present_flag && !field_pic_flag {
            signed(node, bitstream, "delta_pic_order_cnt_bottom");
        }
    }
    if state.pic_order_cnt_type == 1 && !state.delta_pic_order_always_zero_flag {
        signed(node, bitstream, "delta_pic_order_cnt");
    }
    if state.redundant_pic_cnt_present_flag {
        unsigned(node, bitstream, "redundant_pic_cnt");
    }
}

/// Processes the part of a slice header about the numbers of reference
/// pictures.
fn process_slice_header_counts<P: BitstreamProcessor>(
    node: &mut SyntaxNode,
    bitstream: &mut P,
    slice_type: SliceType,
)
    requires
        old(bitstream).ready(),
    ensures
        final(bitstream).ready(),
        final(node).name == old(node).name,
        walk_of(final(bitstream), final(node)) == slice_header_counts(
            walk_of(old(bitstream), old(node)),
            slice_type,
        ),
{
    if slice_type == SliceType::B {
        flag(node, bitstream, "direct_spatial_mv_pred_flag");
    }
    if slice_type == SliceType::P || slice_type == SliceType::SP || slice_type == SliceType::B {
        let num_ref_idx_active_override_flag = flag(
            node,
            bitstream,
            "num_ref_idx_active_override_flag",
        );
        if num_ref_idx_active_override_flag {
            unsigned(node, bitstream, "num_ref_idx_l0_active_minus1");
            if slice_type == SliceType::B {
                unsigned(node, bitstream, "num_ref_idx_l1_active_minus1");
            }
        }
    }
}

/// Processes the part of a slice header about reference pictures.
fn process_slice_header_refs<P: BitstreamProcessor>(
    node: &mut SyntaxNode,
    bitstream: &mut P,
    state: &H264State,
    slice_type: SliceType,
    nalu_type: i32,
    nal_ref_idc: i32,
)
    requires
        old(bitstream).ready(),
    ensures
        final(bitstream).ready(),
        final(node).name == old(node).name,
        walk_of(final(bitstream), final(node)) == slice_header_refs(
            walk_of(old(bitstream), old(node)),
            *state,
            slice_type,
            nalu_type,
            nal_ref_idc,
        ),
{
    process_slice_header_counts(node, bitstream, slice_type);
    let list_name = if nalu_type == 20 || nalu_type == 21 {
        "ref_pic_list_mvc_modification"
    } else {
        "ref_pic_list_modification"
    };
    let mut list = bitstream.subnode(node, list_name);
    process_ref_pic_list_modification(&mut list, bitstream, slice_type);
    bitstream.end_subnode(node, list_name, list);
    if (state.weighted_pred_flag && (slice_type == SliceType::P || slice_type == SliceType::SP))
        || (state.weighted_bipred_idc == 1 && slice_type == SliceType::B) {
        let mut table = bitstream.subnode(node, "pred_weight_table");
        process_pred_weight_table(&mut table, bitstream, state, slice_type);
        bitstream.end_subnode(node, "pred_weight_table", table);
    }
    if nal_ref_idc != 0 {
        let mut marking = bitstream.subnode(node, "dec_ref_pic_marking");
        process_dec_ref_pic_marking(&mut marking, bitstream, nalu_type == 5);
        bitstream.end_subnode(node, "dec_ref_pic_marking", marking);
    }
}

/// Processes the last part of a slice header: quantisation, deblocking and
/// slice groups.
fn process_slice_header_end<P: BitstreamProcessor>(
    node: &mut SyntaxNode,
    bitstream: &mut P,
    state: &H264State,
    slice_type: SliceType,
)
    requires
        old(bitstream).ready(),
    ensures
        final(bitstream).ready(),
        final(node).name == old(node).name,
        walk_of(final(bitstream), final(node)) == slice_header_end(
            walk_of(old(bitstream), old(node)),
            *state,
            slice_type,
        ),
{
    if state.entropy_coding_mode_flag && slice_type != SliceType::I && slice_type != SliceType::SI {
        unsigned(node, bitstream, "cabac_init_idc");
    }
    signed(node, bitstream, "slice_qp_delta");
    if slice_type == SliceType::SP || slice_type == SliceType::SI {
        if slice_type == SliceType::SP {
            flag(node, bitstream, "sp_for_switch_flag");
        }
        signed(node, bitstream, "slice_qs_delta");
    }
    if state.deblocking_filter_control_present_flag {
        let disable_deblocking_filter_idc = unsigned(
            node,
            bitstream,
            "disable_deblocking_filter_idc",
        );
        if disable_deblocking_filter_idc != 1 {
            signed(node, bitstream, "slice_alpha_c0_offset_div2");
            signed(node, bitstream, "slice_beta_offset_div2");
        }
    }
    if state.num_slice_groups_minus1 > 0 && state.slice_group_map_type >= 3
        && state.slice_group_map_type <= 5 {
        let slice_group_change_cycle_size = slice_group_change_cycle_width(state);
        sized_field(node, bitstream, "slice_group_change_cycle", slice_group_change_cycle_size);
    }
}

/// Processes a slice header.
pub fn process_slice_header<P: BitstreamProcessor>(
    node: &mut SyntaxNode,
    bitstream: &mut P,
    state: &H264State,
    nalu_type: i32,
    nal_ref_idc: i32,
)
    requires
        old(bitstream).ready(),
    ensures
        final(bitstream).ready(),
        final(node).name == old(node).name,
        walk_of(final(bitstream), final(node)) == slice_header(
            walk_of(old(bitstream), old(node)),
            *state,
            nalu_type,
            nal_ref_idc,
        ),
{
    unsigned(node, bitstream, "first_mb_in_slice");
    let slice_type = int_to_slice_type(unsigned(node, bitstream, "slice_type"));
    process_slice_header_start(node, bitstream, state, nalu_type);
    process_slice_header_refs(node, bitstream, state, slice_type, nalu_type, nal_ref_idc);
    process_slice_header_end(node, bitstream, state, slice_type);
}

/// Processes a slice: its header, and the slice data carried through as it
/// is.
pub fn process_slice<P: BitstreamProcessor>(
    node: &mut SyntaxNode,
    bitstream: &mut P,
    state: &H264State,
    nalu_type: i32,
    nalu_ref_idc: i32,
)
    requires
        old(bitstream).ready(),
    ensures
        final(bitstream).ready(),
        final(node).name == old(node).name,
        walk_of(final(bitstream), final(node)) == slice(
            walk_of(old(bitstream), old(node)),
            *state,
            nalu_type,
            nalu_ref_idc,
        ),
{
    let mut header = bitstream.subnode(node, "slice_header");
    process_slice_header(&mut header, bitstream, state, nalu_type, nalu_ref_idc);
    bitstream.end_subnode(node, "slice_header", header);
    bitstream.payload(node, "slice_payload");
}

/// Processes a NAL unit: its header and, by its type, a slice, a parameter
/// set or a payload carried through as it is.
pub fn process_nalu<P: BitstreamProcessor>(
    node: &mut SyntaxNode,
    bitstream: &mut P,
    state: &mut H264State,
)
    requires
        old(bitstream).ready(),
    ensures
        final(bitstream).ready(),
        final(node).name == old(node).name,
        walk_of(final(bitstream), final(node)) == nalu(
            walk_of(old(bitstream), old(node)),
            *old(state),
        ).w,
        *final(state) == nalu(walk_of(old(bitstream), old(node)), *old(state)).st,
{
    reveal(nalu);
    flag(node, bitstream, "forbidden_zero_bit");
    let nalu_ref_idc = fixed(node, bitstream, "nal_ref_idc", 2);
    let nalu_type = fixed(node, bitstream, "nal_unit_type", 5);
    if 1 <= nalu_type && nalu_type <= 5 {
        let mut sub = bitstream.subnode(node, "slice");
        process_slice(&mut sub, bitstream, state, nalu_type, nalu_ref_idc);
        bitstream.end_subnode(node, "slice", sub);
    } else if nalu_type == 7 {
        let mut sub = bitstream.subnode(node, "sps");
        process_sps(&mut sub, bitstream, state);
        bitstream.end_subnode(node, "sps", sub);
    } else if nalu_type == 8 {
        let mut sub = bitstream.subnode(node, "pps");
        process_pps(&mut sub, bitstream, state);
        bitstream.end_subnode(node, "pps", sub);
    } else if nalu_type == 12 {
        let mut sub = bitstream.subnode(node, "filler_nalu");
        process_filler(&mut sub, bitstream);
        bitstream.end_subnode(node, "filler_nalu", sub);
    } else {
        let mut sub = bitstream.subnode(node, "unparsed_nalu");
        process_filler(&mut sub, bitstream);
        bitstream.end_subnode(node, "unparsed_nalu", sub);
    }
}

/// Splits an Annex-B byte stream at its start codes and hands back a
/// reader at the start of each unit that is not empty.
pub fn tokenize_h264_bitstream<'a>(bitstream: &'a Vec<u8>) -> (readers: Vec<BitstreamReader<'a>>)
    ensures
        readers@.len() == split_units(bitstream@).len(),
        forall|i: int|
            0 <= i < readers@.len() ==> (#[trigger] readers@[i]).ready() && readers@[i]@
                == Machine::reading(split_units(bitstream@)[i], 0),
{
    let bytes = bitstream.as_slice();
    let len = bytes.len();
    let mut ret: Vec<BitstreamReader<'a>> = Vec::new();
    let mut start_idx: usize = 0;
    let mut curr_idx: usize = 0;
    let ghost mut done: Seq<Seq<u8>> = Seq::empty();
    while curr_idx < len
        invariant
            bytes@ == bitstream@,
            len == bytes@.len(),
            start_idx <= curr_idx <= len,
            ret@.len() == done.len(),
            done + split_from(bitstream@, start_idx as int, curr_idx as int) == split_units(
                bitstream@,
            ),
            forall|i: int|
                0 <= i < ret@.len() ==> (#[trigger] ret@[i]).ready() && ret@[i]@
                    == Machine::reading(done[i], 0),
        decreases len - curr_idx,
    {
        let code: usize = if len - curr_idx >= 4 && bytes[curr_idx] == 0x00 && bytes[curr_idx + 1]
            == 0x00 && bytes[curr_idx + 2] == 0x00 && bytes[curr_idx + 3] == 0x01 {
            4
        } else if len - curr_idx >= 3 && bytes[curr_idx] == 0x00 && bytes[curr_idx + 1] == 0x00
            && bytes[curr_idx + 2] == 0x01 {
            3
        } else {
            0
        };
        assert(code == start_code_len(bitstream@, curr_idx as int));
        if code > 0 {
            if curr_idx != start_idx {
                ret.push(BitstreamReader::new(slice_subrange(bytes, start_idx, curr_idx)));
                proof {
                    let unit = bitstream@.subrange(start_idx as int, curr_idx as int);
                    assert(done.push(unit) + split_from(
                        bitstream@,
                        curr_idx + code,
                        curr_idx + code,
                    ) =~= done + (seq![unit] + split_from(
                        bitstream@,
                        curr_idx + code,
                        curr_idx + code,
                    )));
                    done = done.push(unit);
                }
            } else {
                assert(Seq::<Seq<u8>>::empty() + split_from(
                    bitstream@,
                    curr_idx + code,
                    curr_idx + code,
                ) =~= split_from(bitstream@, curr_idx + code, curr_idx + code));
            }
            curr_idx = curr_idx + code;
            start_idx = curr_idx;
        } else {
            curr_idx = curr_idx + 1;
        }
    }
    if curr_idx != start_idx {
        ret.push(BitstreamReader::new(slice_subrange(bytes, start_idx, curr_idx)));
        proof {
            done = done.push(bitstream@.subrange(start_idx as int, curr_idx as int));
        }
    }
    proof {
        assert(done =~= split_units(bitstream@));
    }
    ret
}

/// Decodes an Annex-B byte stream into one `nalu` tree for each unit, or
/// fails with the first failure of the first unit that has one.
pub fn try_parse_h264(bitstream: &Vec<u8>) -> (r: Result<Vec<SyntaxElement>, SyntaxError>)
    ensures
        match decode_stream(bitstream@) {
            Ok(trees) => r is Ok && forest(r->Ok_0@) == trees,
            Err(fault) => r is Err && r->Err_0@ == fault,
        },
{
    let mut ret: Vec<SyntaxElement> = Vec::new();
    let mut compressed_nalus = tokenize_h264_bitstream(bitstream);
    let mut state = H264State::new();
    let ghost units = split_units(bitstream@);
    let count = compressed_nalus.len();
    let mut i: usize = 0;
    proof {
        assert(units.skip(0) =~= units);
        assert(forest(ret@) =~= Seq::<Element>::empty());
    }
    while i < count
        invariant
            i <= count,
            count == units.len(),
            compressed_nalus@.len() == count,
            forall|k: int|
                i <= k < count ==> (#[trigger] compressed_nalus@[k]).ready() && compressed_nalus@[k]@
                    == Machine::reading(units[k], 0),
            match decode_units(units.skip(i as int), state) {
                Ok(rest) => decode_stream(bitstream@) == Ok::<Seq<Element>, Fault>(
                    forest(ret@) + rest,
                ),
                Err(fault) => decode_stream(bitstream@) == Err::<Seq<Element>, Fault>(fault),
            },
        decreases count - i,
    {
        let mut root = SyntaxNode::new("nalu");
        let ghost before = compressed_nalus@;
        let reader = &mut compressed_nalus[i];
        process_nalu(&mut root, reader, &mut state);
        let fault = reader.fault();
        proof {
            assert(units.skip(i as int)[0] == units[i as int]);
            assert(units.skip(i as int).skip(1) =~= units.skip(i + 1));
            assert(compressed_nalus@.len() == count);
            assert forall|k: int| i + 1 <= k < count implies (#[trigger] compressed_nalus@[k]).ready()
                && compressed_nalus@[k]@ == Machine::reading(units[k], 0) by {
                assert(compressed_nalus@[k] == before[k]);
            }
        }
        match fault {
            Some(e) => {
                return Err(e);
            },
            None => {},
        }
        proof {
            lemma_node_view(root);
            let tree = SyntaxElement::Node(root)@;
            match decode_units(units.skip(i + 1), state) {
                Ok(rest) => {
                    assert(forest(ret@.push(SyntaxElement::Node(root))) + rest =~= forest(ret@) + (
                    seq![tree] + rest));
                },
                Err(fault) => {},
            }
        }
        ret.push(SyntaxElement::Node(root));
        i = i + 1;
    }
    proof {
        assert(forest(ret@) + Seq::<Element>::empty() =~= forest(ret@));
    }
    Ok(ret)
}

/// Encodes the trees that a text stands for into an Annex-B byte stream:
/// each tree behind a four-byte start code, the last byte filled up with
/// zero bits. Fails where the text is refused, where a tree is no node, or
/// with the first failure of the first tree that has one.
pub fn try_serialize_h264(human_readable: String) -> (r: Result<Vec<u8>, SyntaxError>)
    ensures
        match encode_text(human_readable@) {
            Ok(bits) => r is Ok && holds_bits(r->Ok_0@, bits),
            Err(fault) => r is Err && r->Err_0@ == fault,
        },
{
    let mut rows = split_lines(human_readable.as_str());
    let mut nalus = match try_syntax_elements_from_string(&mut rows) {
        Ok(nalus) => nalus,
        Err(e) => {
            return Err(e);
        },
    };
    let mut writer = BitstreamWriter::new();
    let mut state = H264State::new();
    let ghost target = encode_text(human_readable@);
    while nalus.len() > 0
        invariant
            writer.ready(),
            !writer@.failed(),
            target == encode_text(human_readable@),
            encode_trees(forest(nalus@), writer@.out, state) == target,
        decreases nalus@.len(),
    {
        let ghost trees = forest(nalus@);
        let ghost before = nalus@;
        let ghost out = writer@.out;
        writer.write(FieldType::UnsignedInt, 8, 0x00);
        writer.write(FieldType::UnsignedInt, 8, 0x00);
        writer.write(FieldType::UnsignedInt, 8, 0x00);
        writer.write(FieldType::UnsignedInt, 8, 0x01);
        let first = nalus.pop_front().unwrap();
        proof {
            assert(writer@.out =~= out + start_code_bits());
            assert(writer@ == Machine::writing(out + start_code_bits())) by {
                assert(writer@.bytes =~= Seq::<u8>::empty());
            }
            assert(first@ == trees[0]);
            assert(forest(nalus@) =~= trees.skip(1));
        }
        match first {
            SyntaxElement::Node(mut nalu) => {
                proof {
                    lemma_node_view(nalu);
                }
                process_nalu(&mut nalu, &mut writer, &mut state);
                match writer.fault() {
                    Some(e) => {
                        return Err(e);
                    },
                    None => {},
                }
            },
            SyntaxElement::Field(field) => {
                return Err(SyntaxError {
                    kind: ErrorKind::NotANode,
                    name: field.name,
                    found: String::new(),
                });
            },
            SyntaxElement::Payload(payload) => {
                return Err(SyntaxError {
                    kind: ErrorKind::NotANode,
                    name: payload.name,
                    found: String::new(),
                });
            },
        }
    }
    proof {
        assert(forest(nalus@) =~= Seq::<Element>::empty());
    }
    Ok(writer.into_bytes())
}

/// Decodes an Annex-B byte stream into one `nalu` tree for each unit. No
/// unit of the stream may end inside a field, hold an exp-Golomb code above
/// the 32-bit range or lead to a field of more than 64 bits; `try_parse_h264`
/// takes any stream.
pub fn parse_h264(bitstream: &Vec<u8>) -> (trees: Vec<SyntaxElement>)
    requires
        decode_stream(bitstream@) is Ok,
    ensures
        forest(trees@) == decode_stream(bitstream@)->Ok_0,
{
    match try_parse_h264(bitstream) {
        Ok(trees) => trees,
        Err(_) => unreached(),
    }
}

/// Encodes the trees that a text stands for into an Annex-B byte stream:
/// each tree behind a four-byte start code, the last byte filled up with
/// zero bits. The text must be well formed and every tree must be a node
/// that agrees with the syntax; `try_serialize_h264` takes any text.
pub fn serialize_h264(human_readable: String) -> (bytes: Vec<u8>)
    requires
        encode_text(human_readable@) is Ok,
    ensures
        holds_bits(bytes@, encode_text(human_readable@)->Ok_0),
{
    match try_serialize_h264(human_readable) {
        Ok(bytes) => bytes,
        Err(_) => unreached(),
    }
}

} // verus!
