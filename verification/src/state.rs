//! What one NAL unit leaves behind for the parsing of later ones.

use vstd::arithmetic::power2::{lemma2_to64, lemma_pow2_unfold, pow2};
use vstd::prelude::*;

verus! {

/// The values of parameter sets that the syntax of later units depends on.
#[derive(Clone, Copy, Debug)]
pub struct H264State {
    pub chroma_format_idc: i32,
    pub separate_color_plane_flag: bool,
    pub frame_mbs_only_flag: bool,
    pub pic_order_cnt_type: i32,
    pub bottom_field_pic_order_in_frame_present_flag: bool,
    pub delta_pic_order_always_zero_flag: bool,
    pub redundant_pic_cnt_present_flag: bool,
    pub weighted_pred_flag: bool,
    pub weighted_bipred_idc: i32,
    pub entropy_coding_mode_flag: bool,
    pub deblocking_filter_control_present_flag: bool,
    pub num_slice_groups_minus1: i32,
    pub slice_group_map_type: i32,
    pub log2_max_frame_num_minus4: i32,
    pub log2_max_pic_order_cnt_lsb_minus4: i32,
    pub num_ref_idx_l0_active_minus1: i32,
    pub num_ref_idx_l1_active_minus1: i32,
    pub pic_size_in_map_units_minus1: i32,
    pub slice_group_change_rate_minus1: i32,
}

impl H264State {
    /// The state at the start of a stream.
    pub open spec fn initial() -> H264State {
        H264State {
            chroma_format_idc: 1,
            separate_color_plane_flag: false,
            frame_mbs_only_flag: false,
            pic_order_cnt_type: 0,
            bottom_field_pic_order_in_frame_present_flag: false,
            delta_pic_order_always_zero_flag: false,
            redundant_pic_cnt_present_flag: false,
            weighted_pred_flag: false,
            weighted_bipred_idc: 0,
            entropy_coding_mode_flag: false,
            deblocking_filter_control_present_flag: false,
            num_slice_groups_minus1: 0,
            slice_group_map_type: 0,
            log2_max_frame_num_minus4: 0,
            log2_max_pic_order_cnt_lsb_minus4: 0,
            num_ref_idx_l0_active_minus1: 0,
            num_ref_idx_l1_active_minus1: 0,
            pic_size_in_map_units_minus1: 0,
            slice_group_change_rate_minus1: 0,
        }
    }

    /// The state at the start of a stream.
    pub fn new() -> (state: H264State)
        ensures
            state == H264State::initial(),
    {
        H264State {
            chroma_format_idc: 1,
            separate_color_plane_flag: false,
            frame_mbs_only_flag: false,
            pic_order_cnt_type: 0,
            bottom_field_pic_order_in_frame_present_flag: false,
            delta_pic_order_always_zero_flag: false,
            redundant_pic_cnt_present_flag: false,
            weighted_pred_flag: false,
            weighted_bipred_idc: 0,
            entropy_coding_mode_flag: false,
            deblocking_filter_control_present_flag: false,
            num_slice_groups_minus1: 0,
            slice_group_map_type: 0,
            log2_max_frame_num_minus4: 0,
            log2_max_pic_order_cnt_lsb_minus4: 0,
            num_ref_idx_l0_active_minus1: 0,
            num_ref_idx_l1_active_minus1: 0,
            pic_size_in_map_units_minus1: 0,
            slice_group_change_rate_minus1: 0,
        }
    }
}

/// The kind of a slice.
#[derive(Clone, Copy, Debug, PartialEq, Eq, Structural)]
pub enum SliceType {
    P,
    B,
    I,
    SP,
    SI,
}

/// The kind of slice that the value of `slice_type` stands for: its
/// remainder modulo 5.
pub open spec fn slice_type_of(x: int) -> SliceType {
    let r = x % 5;
    if r == 0 {
        SliceType::P
    } else if r == 1 {
        SliceType::B
    } else if r == 2 {
        SliceType::I
    } else if r == 3 {
        SliceType::SP
    } else {
        SliceType::SI
    }
}

/// The kind of slice that the value of `slice_type` stands for.
pub fn int_to_slice_type(x: i32) -> (slice_type: SliceType)
    ensures
        slice_type == slice_type_of(x as int),
{
    let r: i32 = if x >= 0 {
        x % 5
    } else {
        4 - (-(x + 1)) % 5
    };
    if r == 0 {
        SliceType::P
    } else if r == 1 {
        SliceType::B
    } else if r == 2 {
        SliceType::I
    } else if r == 3 {
        SliceType::SP
    } else {
        SliceType::SI
    }
}

/// The least `k` with `x <= 2^k`.
pub open spec fn ceil_log2(x: int) -> nat
    decreases x,
{
    if x <= 1 {
        0
    } else {
        1 + ceil_log2((x + 1) / 2)
    }
}

/// A number that is at most `2^n` needs at most `n` halvings.
pub proof fn lemma_ceil_log2_bound(x: int, n: nat)
    requires
        x <= pow2(n),
    ensures
        ceil_log2(x) <= n,
    decreases n,
{
    lemma2_to64();
    if x > 1 {
        if n == 0 {
        } else {
            lemma_pow2_unfold(n);
            lemma_ceil_log2_bound((x + 1) / 2, (n - 1) as nat);
        }
    }
}

/// The least `k` with `x <= 2^k`.
pub fn ceil_log2_of(x: i64) -> (k: u8)
    ensures
        k == ceil_log2(x as int),
        k <= 63,
{
    let mut rest: i64 = x;
    let mut k: u8 = 0;
    proof {
        lemma2_to64();
        vstd::arithmetic::power2::lemma2_to64_rest();
        lemma_ceil_log2_bound(x as int, 63);
    }
    while rest > 1
        invariant
            k + ceil_log2(rest as int) == ceil_log2(x as int),
            ceil_log2(x as int) <= 63,
        decreases rest,
    {
        rest = (rest - 1) / 2 + 1;
        k = k + 1;
    }
    k
}

} // verus!
