//! Encoding what was decoded, structure by structure: for each syntax
//! structure, a walk reaches what the walk after the structure reaches, and
//! the writer that follows a reader still follows it after the structure of
//! both.

use crate::codec::{legal_width, FieldType};
use crate::grammar::{
    before_frame_num, before_pic_order_cnt, change_cycle_width, has_weight_table,
    list_modification_name, nalu, nalu_body, slice, slice_header, slice_header_counts,
    slice_header_end, slice_header_refs, slice_header_start,
};
use crate::grammar::{
    corners, dec_ref_pic_marking, filler, marking_operands, markings, modifications, pps, pps_body,
    pps_extension, pps_head, pred_weight_table, ref_pic_list_modification, repeat_field,
    scaling_list, scaling_matrix, slice_groups, sps, sps_frame, sps_high, sps_order, subnode,
    weights, weights_of, WeightNames,
};
use crate::state::{lemma_ceil_log2_bound, SliceType};
use crate::machine::Walk;
use crate::roundtrip::{
    follows, is_narrow, lemma_closed, lemma_steps, lemma_subnode, reaches, reads_canonical,
    Origin,
};
use crate::state::H264State;
use crate::tree::Element;
use vstd::prelude::*;

verus! {

/// The writer follows the reader through the fields `base[i]` up to `count`.
pub proof fn lemma_repeat_field(
    w: Walk,
    r: Walk,
    base: Seq<char>,
    field_type: FieldType,
    n: u8,
    i: int,
    count: int,
    e: Walk,
    tail: Seq<Element>,
    from: Origin,
)
    requires
        reaches(repeat_field(r, base, field_type, n, i, count), e),
        legal_width(field_type, n),
        is_narrow(field_type, n),
    ensures
        reaches(r, e),
        follows(w, r, e, tail, from) ==> follows(
            repeat_field(w, base, field_type, n, i, count),
            repeat_field(r, base, field_type, n, i, count),
            e,
            tail,
            from,
        ),
    decreases count - i,
{
    lemma_steps(e, tail, from);
    if i < count && !r.failed() {
        let name = crate::numeral::indexed(base, i);
        lemma_repeat_field(
            w.field(name, field_type, n),
            r.field(name, field_type, n),
            base,
            field_type,
            n,
            i + 1,
            count,
            e,
            tail,
            from,
        );
    }
}

/// The writer follows the reader through a scaling list.
pub proof fn lemma_scaling_list(
    w: Walk,
    r: Walk,
    size: nat,
    last: int,
    next: int,
    e: Walk,
    tail: Seq<Element>,
    from: Origin,
)
    requires
        reaches(scaling_list(r, size, last, next), e),
    ensures
        reaches(r, e),
        follows(w, r, e, tail, from) ==> follows(
            scaling_list(w, size, last, next),
            scaling_list(r, size, last, next),
            e,
            tail,
            from,
        ),
    decreases size,
{
    lemma_steps(e, tail, from);
    if size > 0 {
        if next != 0 {
            let delta = crate::grammar::se_value(r, "delta_scale"@);
            let r1 = crate::grammar::se(r, "delta_scale"@);
            let w1 = crate::grammar::se(w, "delta_scale"@);
            let next1 = (last + delta + 256) % 256;
            lemma_scaling_list(
                w1,
                r1,
                (size - 1) as nat,
                if next1 == 0 {
                    last
                } else {
                    next1
                },
                next1,
                e,
                tail,
                from,
            );
        } else {
            lemma_scaling_list(w, r, (size - 1) as nat, last, next, e, tail, from);
        }
    }
}

/// One scaling list in its subnode.
pub proof fn lemma_scaling_list_node(
    w: Walk,
    r: Walk,
    name: Seq<char>,
    size: nat,
    e: Walk,
    tail: Seq<Element>,
    from: Origin,
)
    requires
        reaches(subnode(r, name, scaling_list(r.inner(name), size, 8, 8)), e),
    ensures
        reaches(r, e),
        follows(w, r, e, tail, from) ==> follows(
            subnode(w, name, scaling_list(w.inner(name), size, 8, 8)),
            subnode(r, name, scaling_list(r.inner(name), size, 8, 8)),
            e,
            tail,
            from,
        ),
{
    let done = scaling_list(r.inner(name), size, 8, 8);
    let written = scaling_list(w.inner(name), size, 8, 8);
    lemma_closed(r, name, done, e);
    lemma_scaling_list(w.inner(name), r.inner(name), size, 8, 8, done, Seq::empty(), from);
    lemma_subnode(w, r, name, done, written, e, tail, from);
}

/// The writer follows the reader through the scaling lists `i` up to `count`
/// of a scaling matrix.
pub proof fn lemma_scaling_matrix(
    w: Walk,
    r: Walk,
    base: Seq<char>,
    i: int,
    count: int,
    e: Walk,
    tail: Seq<Element>,
    from: Origin,
)
    requires
        reaches(scaling_matrix(r, base, i, count), e),
    ensures
        reaches(r, e),
        follows(w, r, e, tail, from) ==> follows(
            scaling_matrix(w, base, i, count),
            scaling_matrix(r, base, i, count),
            e,
            tail,
            from,
        ),
    decreases count - i,
{
    lemma_steps(e, tail, from);
    if i < count && !r.failed() {
        let name = crate::numeral::indexed(base, i);
        let present = crate::grammar::bit_set(r, name);
        let r1 = crate::grammar::bit(r, name);
        let w1 = crate::grammar::bit(w, name);
        let r2 = if !present {
            r1
        } else if i < 6 {
            subnode(r1, "scaling_list4x4"@, scaling_list(r1.inner("scaling_list4x4"@), 16, 8, 8))
        } else {
            subnode(r1, "scaling_list8x8"@, scaling_list(r1.inner("scaling_list8x8"@), 64, 8, 8))
        };
        let w2 = if !present {
            w1
        } else if i < 6 {
            subnode(w1, "scaling_list4x4"@, scaling_list(w1.inner("scaling_list4x4"@), 16, 8, 8))
        } else {
            subnode(w1, "scaling_list8x8"@, scaling_list(w1.inner("scaling_list8x8"@), 64, 8, 8))
        };
        lemma_scaling_matrix(w2, r2, base, i + 1, count, e, tail, from);
        if present {
            if i < 6 {
                lemma_scaling_list_node(w1, r1, "scaling_list4x4"@, 16, e, tail, from);
            } else {
                lemma_scaling_list_node(w1, r1, "scaling_list8x8"@, 64, e, tail, from);
            }
        }
    }
}

/// The writer follows the reader through the fields `base[0]` up to `count`,
/// wherever they stand on the way to `e`.
pub proof fn lemma_every_repeat_field(e: Walk, tail: Seq<Element>, from: Origin)
    ensures
        forall|y: Walk, x: Walk, base: Seq<char>, ft: FieldType, n: u8, count: int|
            reaches(#[trigger] repeat_field(x, base, ft, n, 0, count), e) && legal_width(ft, n)
                && is_narrow(ft, n) ==> {
                &&& reaches(x, e)
                &&& follows(y, x, e, tail, from) ==> follows(
                    #[trigger] repeat_field(y, base, ft, n, 0, count),
                    repeat_field(x, base, ft, n, 0, count),
                    e,
                    tail,
                    from,
                )
            },
{
    assert forall|y: Walk, x: Walk, base: Seq<char>, ft: FieldType, n: u8, count: int|
        reaches(#[trigger] repeat_field(x, base, ft, n, 0, count), e) && legal_width(ft, n)
            && is_narrow(ft, n) implies {
        &&& reaches(x, e)
        &&& follows(y, x, e, tail, from) ==> follows(
            #[trigger] repeat_field(y, base, ft, n, 0, count),
            repeat_field(x, base, ft, n, 0, count),
            e,
            tail,
            from,
        )
    } by {
        lemma_repeat_field(y, x, base, ft, n, 0, count, e, tail, from);
    }
}

/// The writer follows the reader through the scaling lists of a scaling
/// matrix, wherever they stand on the way to `e`.
pub proof fn lemma_every_scaling_matrix(e: Walk, tail: Seq<Element>, from: Origin)
    ensures
        forall|y: Walk, x: Walk, base: Seq<char>, count: int|
            reaches(#[trigger] scaling_matrix(x, base, 0, count), e) ==> {
                &&& reaches(x, e)
                &&& follows(y, x, e, tail, from) ==> follows(
                    #[trigger] scaling_matrix(y, base, 0, count),
                    scaling_matrix(x, base, 0, count),
                    e,
                    tail,
                    from,
                )
            },
{
    assert forall|y: Walk, x: Walk, base: Seq<char>, count: int|
        reaches(#[trigger] scaling_matrix(x, base, 0, count), e) implies {
        &&& reaches(x, e)
        &&& follows(y, x, e, tail, from) ==> follows(
            #[trigger] scaling_matrix(y, base, 0, count),
            scaling_matrix(x, base, 0, count),
            e,
            tail,
            from,
        )
    } by {
        lemma_scaling_matrix(y, x, base, 0, count, e, tail, from);
    }
}

/// The writer follows the reader through the corner pairs of a slice group
/// map, wherever they stand on the way to `e`.
pub proof fn lemma_every_corners(e: Walk, tail: Seq<Element>, from: Origin)
    ensures
        forall|y: Walk, x: Walk, count: int|
            reaches(#[trigger] corners(x, 0, count), e) ==> {
                &&& reaches(x, e)
                &&& follows(y, x, e, tail, from) ==> follows(
                    #[trigger] corners(y, 0, count),
                    corners(x, 0, count),
                    e,
                    tail,
                    from,
                )
            },
{
    assert forall|y: Walk, x: Walk, count: int| reaches(#[trigger] corners(x, 0, count), e) implies {
        &&& reaches(x, e)
        &&& follows(y, x, e, tail, from) ==> follows(
            #[trigger] corners(y, 0, count),
            corners(x, 0, count),
            e,
            tail,
            from,
        )
    } by {
        lemma_corners(y, x, 0, count, e, tail, from);
    }
}

/// The writer follows the reader through the modifications of one reference
/// picture list, wherever they stand on the way to `e`.
pub proof fn lemma_every_modifications(e: Walk, tail: Seq<Element>, from: Origin)
    ensures
        forall|y: Walk, x: Walk|
            reaches(#[trigger] modifications(x), e) ==> {
                &&& reaches(x, e)
                &&& follows(y, x, e, tail, from) ==> follows(
                    #[trigger] modifications(y),
                    modifications(x),
                    e,
                    tail,
                    from,
                )
            },
{
    assert forall|y: Walk, x: Walk| reaches(#[trigger] modifications(x), e) implies {
        &&& reaches(x, e)
        &&& follows(y, x, e, tail, from) ==> follows(
            #[trigger] modifications(y),
            modifications(x),
            e,
            tail,
            from,
        )
    } by {
        lemma_modifications(y, x, e, tail, from);
    }
}

/// The writer follows the reader through the weights of the references of one
/// list, wherever they stand on the way to `e`.
pub proof fn lemma_every_weights(e: Walk, tail: Seq<Element>, from: Origin)
    ensures
        forall|y: Walk, x: Walk, names: WeightNames, chroma: bool, count: int|
            reaches(#[trigger] weights(x, names, chroma, 0, count), e) ==> {
                &&& reaches(x, e)
                &&& follows(y, x, e, tail, from) ==> follows(
                    #[trigger] weights(y, names, chroma, 0, count),
                    weights(x, names, chroma, 0, count),
                    e,
                    tail,
                    from,
                )
            },
{
    assert forall|y: Walk, x: Walk, names: WeightNames, chroma: bool, count: int|
        reaches(#[trigger] weights(x, names, chroma, 0, count), e) implies {
        &&& reaches(x, e)
        &&& follows(y, x, e, tail, from) ==> follows(
            #[trigger] weights(y, names, chroma, 0, count),
            weights(x, names, chroma, 0, count),
            e,
            tail,
            from,
        )
    } by {
        lemma_weights(y, x, names, chroma, 0, count, e, tail, from);
    }
}

/// The writer follows the reader through the memory management control
/// operations of a slice, wherever they stand on the way to `e`.
pub proof fn lemma_every_markings(e: Walk, tail: Seq<Element>, from: Origin)
    ensures
        forall|y: Walk, x: Walk|
            reaches(#[trigger] markings(x), e) ==> {
                &&& reaches(x, e)
                &&& follows(y, x, e, tail, from) ==> follows(
                    #[trigger] markings(y),
                    markings(x),
                    e,
                    tail,
                    from,
                )
            },
{
    assert forall|y: Walk, x: Walk| reaches(#[trigger] markings(x), e) implies {
        &&& reaches(x, e)
        &&& follows(y, x, e, tail, from) ==> follows(
            #[trigger] markings(y),
            markings(x),
            e,
            tail,
            from,
        )
    } by {
        lemma_markings(y, x, e, tail, from);
    }
}

/// The writer follows the reader through the part of a sequence parameter
/// set that only some profiles have.
pub proof fn lemma_sps_high(
    w: Walk,
    r: Walk,
    st: H264State,
    e: Walk,
    tail: Seq<Element>,
    from: Origin,
)
    requires
        reaches(sps_high(r, st).w, e),
    ensures
        reaches(r, e),
        follows(w, r, e, tail, from) ==> follows(sps_high(w, st).w, sps_high(r, st).w, e, tail, from)
            && sps_high(w, st).st == sps_high(r, st).st,
{
    lemma_steps(e, tail, from);
    lemma_every_scaling_matrix(e, tail, from);
}

/// The writer follows the reader through the frame numbering and picture
/// order count part of a sequence parameter set.
pub proof fn lemma_sps_order(
    w: Walk,
    r: Walk,
    st: H264State,
    e: Walk,
    tail: Seq<Element>,
    from: Origin,
)
    requires
        reaches(sps_order(r, st).w, e),
    ensures
        reaches(r, e),
        follows(w, r, e, tail, from) ==> follows(
            sps_order(w, st).w,
            sps_order(r, st).w,
            e,
            tail,
            from,
        ) && sps_order(w, st).st == sps_order(r, st).st,
{
    lemma_steps(e, tail, from);
    let r2 = crate::grammar::ue(
        crate::grammar::ue(r, "log2_max_frame_num_minus4"@),
        "pic_order_cnt_type"@,
    );
    let w2 = crate::grammar::ue(
        crate::grammar::ue(w, "log2_max_frame_num_minus4"@),
        "pic_order_cnt_type"@,
    );
    let r5 = crate::grammar::se(
        crate::grammar::se(
            crate::grammar::bit(r2, "delta_pic_order_always_zero_flag"@),
            "offset_for_non_ref_pic"@,
        ),
        "offset_for_top_to_bottom_field"@,
    );
    let w5 = crate::grammar::se(
        crate::grammar::se(
            crate::grammar::bit(w2, "delta_pic_order_always_zero_flag"@),
            "offset_for_non_ref_pic"@,
        ),
        "offset_for_top_to_bottom_field"@,
    );
    let count = crate::grammar::ue_value(r5, "num_ref_frames_in_pic_order_cnt_cycle"@);
    if crate::grammar::ue_value(
        crate::grammar::ue(r, "log2_max_frame_num_minus4"@),
        "pic_order_cnt_type"@,
    ) == 1 {
        lemma_repeat_field(
            crate::grammar::ue(w5, "num_ref_frames_in_pic_order_cnt_cycle"@),
            crate::grammar::ue(r5, "num_ref_frames_in_pic_order_cnt_cycle"@),
            "offset_for_ref_frame"@,
            FieldType::SignedExpGolomb,
            0,
            0,
            count as int,
            e,
            tail,
            from,
        );
    }
}

/// The writer follows the reader through the frame size and cropping part
/// of a sequence parameter set and what is left of the unit.
pub proof fn lemma_sps_frame(
    w: Walk,
    r: Walk,
    st: H264State,
    e: Walk,
    tail: Seq<Element>,
    from: Origin,
)
    requires
        reaches(sps_frame(r, st).w, e),
    ensures
        reaches(r, e),
        e.m.pos == 8 * e.m.bytes.len(),
        follows(w, r, e, tail, from) ==> follows(
            sps_frame(w, st).w,
            sps_frame(r, st).w,
            e,
            tail,
            from,
        ) && sps_frame(w, st).st == sps_frame(r, st).st,
{
    lemma_steps(e, tail, from);
}

/// The writer follows the reader through a sequence parameter set.
pub proof fn lemma_sps(w: Walk, r: Walk, st: H264State, e: Walk, tail: Seq<Element>, from: Origin)
    requires
        reaches(sps(r, st).w, e),
    ensures
        reaches(r, e),
        e.m.pos == 8 * e.m.bytes.len(),
        follows(w, r, e, tail, from) ==> follows(sps(w, st).w, sps(r, st).w, e, tail, from) && sps(
            w,
            st,
        ).st == sps(r, st).st,
{
    reveal(sps);
    lemma_steps(e, tail, from);
    assert forall|y: Walk, x: Walk, s: H264State| reaches(#[trigger] sps_high(x, s).w, e) implies {
        &&& reaches(x, e)
        &&& follows(y, x, e, tail, from) ==> {
            &&& follows(#[trigger] sps_high(y, s).w, sps_high(x, s).w, e, tail, from)
            &&& sps_high(y, s).st == sps_high(x, s).st
        }
    } by {
        lemma_sps_high(y, x, s, e, tail, from);
    }
    assert forall|y: Walk, x: Walk, s: H264State| reaches(#[trigger] sps_order(x, s).w, e) implies {
        &&& reaches(x, e)
        &&& follows(y, x, e, tail, from) ==> {
            &&& follows(#[trigger] sps_order(y, s).w, sps_order(x, s).w, e, tail, from)
            &&& sps_order(y, s).st == sps_order(x, s).st
        }
    } by {
        lemma_sps_order(y, x, s, e, tail, from);
    }
    assert forall|y: Walk, x: Walk, s: H264State| reaches(#[trigger] sps_frame(x, s).w, e) implies {
        &&& reaches(x, e)
        &&& e.m.pos == 8 * e.m.bytes.len()
        &&& follows(y, x, e, tail, from) ==> {
            &&& follows(#[trigger] sps_frame(y, s).w, sps_frame(x, s).w, e, tail, from)
            &&& sps_frame(y, s).st == sps_frame(x, s).st
        }
    } by {
        lemma_sps_frame(y, x, s, e, tail, from);
    }
}

/// The writer follows the reader through the corner pairs of a slice group
/// map.
pub proof fn lemma_corners(
    w: Walk,
    r: Walk,
    i: int,
    count: int,
    e: Walk,
    tail: Seq<Element>,
    from: Origin,
)
    requires
        reaches(corners(r, i, count), e),
    ensures
        reaches(r, e),
        follows(w, r, e, tail, from) ==> follows(
            corners(w, i, count),
            corners(r, i, count),
            e,
            tail,
            from,
        ),
    decreases count - i,
{
    lemma_steps(e, tail, from);
    if i < count && !r.failed() {
        let top = crate::numeral::indexed("top_left"@, i);
        let bottom = crate::numeral::indexed("bottom_right"@, i);
        lemma_corners(
            crate::grammar::ue(crate::grammar::ue(w, top), bottom),
            crate::grammar::ue(crate::grammar::ue(r, top), bottom),
            i + 1,
            count,
            e,
            tail,
            from,
        );
    }
}

/// The writer follows the reader through the slice group map of a picture
/// parameter set.
pub proof fn lemma_slice_groups(
    w: Walk,
    r: Walk,
    st: H264State,
    e: Walk,
    tail: Seq<Element>,
    from: Origin,
)
    requires
        reaches(slice_groups(r, st).w, e),
    ensures
        reaches(r, e),
        follows(w, r, e, tail, from) ==> follows(
            slice_groups(w, st).w,
            slice_groups(r, st).w,
            e,
            tail,
            from,
        ) && slice_groups(w, st).st == slice_groups(r, st).st,
{
    lemma_steps(e, tail, from);
    vstd::arithmetic::power2::lemma2_to64();
    lemma_ceil_log2_bound(st.num_slice_groups_minus1 + 1, 31);
    lemma_every_repeat_field(e, tail, from);
    lemma_every_corners(e, tail, from);
}

/// The writer follows the reader through the first part of a picture
/// parameter set.
pub proof fn lemma_pps_head(
    w: Walk,
    r: Walk,
    st: H264State,
    e: Walk,
    tail: Seq<Element>,
    from: Origin,
)
    requires
        reaches(pps_head(r, st).w, e),
    ensures
        reaches(r, e),
        follows(w, r, e, tail, from) ==> follows(pps_head(w, st).w, pps_head(r, st).w, e, tail, from)
            && pps_head(w, st).st == pps_head(r, st).st,
{
    lemma_steps(e, tail, from);
    let r2 = crate::grammar::ue(
        crate::grammar::ue(r, "pic_parameter_set_id"@),
        "seq_parameter_set_id"@,
    );
    let w2 = crate::grammar::ue(
        crate::grammar::ue(w, "pic_parameter_set_id"@),
        "seq_parameter_set_id"@,
    );
    let st1 = H264State {
        entropy_coding_mode_flag: crate::grammar::bit_set(r2, "entropy_coding_mode_flag"@),
        ..st
    };
    let r3 = crate::grammar::bit(r2, "entropy_coding_mode_flag"@);
    let w3 = crate::grammar::bit(w2, "entropy_coding_mode_flag"@);
    let st2 = H264State {
        bottom_field_pic_order_in_frame_present_flag: crate::grammar::bit_set(
            r3,
            "bottom_field_pic_order_in_frame_present_flag"@,
        ),
        ..st1
    };
    let r4 = crate::grammar::bit(r3, "bottom_field_pic_order_in_frame_present_flag"@);
    let w4 = crate::grammar::bit(w3, "bottom_field_pic_order_in_frame_present_flag"@);
    let groups = crate::grammar::ue_value(r4, "num_slice_groups_minus1"@);
    let r5 = crate::grammar::ue(r4, "num_slice_groups_minus1"@);
    let w5 = crate::grammar::ue(w4, "num_slice_groups_minus1"@);
    let st3 = H264State { num_slice_groups_minus1: groups, ..st2 };
    if groups > 0 {
        lemma_slice_groups(w5, r5, st3, e, tail, from);
    }
}

/// The writer follows the reader through the part of a picture parameter set
/// about prediction and quantisation.
pub proof fn lemma_pps_body(
    w: Walk,
    r: Walk,
    st: H264State,
    e: Walk,
    tail: Seq<Element>,
    from: Origin,
)
    requires
        reaches(pps_body(r, st).w, e),
    ensures
        reaches(r, e),
        follows(w, r, e, tail, from) ==> follows(pps_body(w, st).w, pps_body(r, st).w, e, tail, from)
            && pps_body(w, st).st == pps_body(r, st).st,
{
    lemma_steps(e, tail, from);
}

/// The writer follows the reader through the part of a picture parameter
/// set that is there where more than the closing bits follow.
pub proof fn lemma_pps_extension(
    w: Walk,
    r: Walk,
    st: H264State,
    e: Walk,
    tail: Seq<Element>,
    from: Origin,
)
    requires
        reaches(pps_extension(r, st), e),
    ensures
        reaches(r, e),
        e.kids.len() > r.kids.len(),
        e.kids[r.kids.len() as int] is Field,
        follows(w, r, e, tail, from) ==> follows(
            pps_extension(w, st),
            pps_extension(r, st),
            e,
            tail,
            from,
        ),
{
    lemma_steps(e, tail, from);
    lemma_every_scaling_matrix(e, tail, from);
    crate::roundtrip::lemma_field_back(r, "transform_8x8_mode_flag"@, FieldType::Boolean, 1, e);
}

/// A picture parameter set, which takes all the children of its node: the
/// writer looks ahead at what is left of them.
pub proof fn lemma_pps(w: Walk, r: Walk, st: H264State, e: Walk, from: Origin)
    requires
        reaches(pps(r, st).w, e),
        e == pps(r, st).w,
    ensures
        reaches(r, e),
        e.m.pos == 8 * e.m.bytes.len(),
        follows(w, r, e, Seq::empty(), from) ==> follows(
            pps(w, st).w,
            pps(r, st).w,
            e,
            Seq::empty(),
            from,
        ) && pps(w, st).st == pps(r, st).st,
{
    reveal(pps);
    let tail = Seq::<Element>::empty();
    lemma_steps(e, tail, from);
    let rh = pps_head(r, st);
    let rb = pps_body(rh.w, rh.st);
    let wh = pps_head(w, st);
    let wb = pps_body(wh.w, wh.st);
    let rx = if rb.w.more_data() {
        pps_extension(rb.w, rb.st)
    } else {
        rb.w
    };
    crate::roundtrip::lemma_payload_back(rx, "trailing_bits"@, e);
    if rb.w.more_data() {
        lemma_pps_extension(wb.w, rb.w, rb.st, e, tail, from);
    }
    lemma_pps_body(wh.w, rh.w, rh.st, e, tail, from);
    lemma_pps_head(w, r, st, e, tail, from);
    if follows(w, r, e, tail, from) {
        assert(follows(wb.w, rb.w, e, tail, from));
        assert(wb.st == rb.st);
        assert(e.kids.len() == rx.kids.len() + 1);
        if rb.w.more_data() {
            assert(wb.w.kids.len() >= 2);
        } else {
            assert(wb.w.kids.len() == 1);
            assert(wb.w.kids[0] == e.kids[rb.w.kids.len() as int]);
        }
        assert(wb.w.more_data() == rb.w.more_data());
    }
}

/// The writer follows the reader through a unit that is carried through as it
/// is.
pub proof fn lemma_filler(w: Walk, r: Walk, e: Walk, tail: Seq<Element>, from: Origin)
    requires
        reaches(filler(r), e),
    ensures
        reaches(r, e),
        e.m.pos == 8 * e.m.bytes.len(),
        follows(w, r, e, tail, from) ==> follows(filler(w), filler(r), e, tail, from),
{
    lemma_steps(e, tail, from);
}

/// The writer follows the reader through the modifications of one reference
/// picture list.
pub proof fn lemma_modifications(w: Walk, r: Walk, e: Walk, tail: Seq<Element>, from: Origin)
    requires
        reaches(modifications(r), e),
    ensures
        reaches(r, e),
        follows(w, r, e, tail, from) ==> follows(modifications(w), modifications(r), e, tail, from),
    decreases r.fuel(),
{
    lemma_steps(e, tail, from);
    let idc = crate::grammar::ue_value(r, "modification_of_pic_nums_idc"@);
    let r1 = crate::grammar::ue(r, "modification_of_pic_nums_idc"@);
    let w1 = crate::grammar::ue(w, "modification_of_pic_nums_idc"@);
    if r.wf() && !r.failed() && !r1.failed() {
        let operand = if idc == 0 || idc == 1 {
            Some("abs_diff_pic_num_minus1"@)
        } else if idc == 2 {
            Some("long_term_pic_num"@)
        } else if idc == 4 || idc == 5 {
            Some("abs_diff_view_idx_minus1"@)
        } else {
            None
        };
        match operand {
            Some(name) => {
                crate::machine::lemma_field_fuel(
                    r,
                    "modification_of_pic_nums_idc"@,
                    FieldType::UnsignedExpGolomb,
                    0,
                );
                crate::machine::lemma_field_fuel(r1, name, FieldType::UnsignedExpGolomb, 0);
                lemma_modifications(
                    crate::grammar::ue(w1, name),
                    crate::grammar::ue(r1, name),
                    e,
                    tail,
                    from,
                );
            },
            None => {},
        }
    }
}

/// The writer follows the reader through the modification of the reference
/// picture lists of a slice.
pub proof fn lemma_ref_pic_list_modification(
    w: Walk,
    r: Walk,
    slice_type: SliceType,
    e: Walk,
    tail: Seq<Element>,
    from: Origin,
)
    requires
        reaches(ref_pic_list_modification(r, slice_type), e),
    ensures
        reaches(r, e),
        follows(w, r, e, tail, from) ==> follows(
            ref_pic_list_modification(w, slice_type),
            ref_pic_list_modification(r, slice_type),
            e,
            tail,
            from,
        ),
{
    lemma_steps(e, tail, from);
    lemma_every_modifications(e, tail, from);
}

/// The writer follows the reader through the weights of one reference.
pub proof fn lemma_weights_of(
    w: Walk,
    r: Walk,
    names: WeightNames,
    chroma: bool,
    i: int,
    e: Walk,
    tail: Seq<Element>,
    from: Origin,
)
    requires
        reaches(weights_of(r, names, chroma, i), e),
    ensures
        reaches(r, e),
        follows(w, r, e, tail, from) ==> follows(
            weights_of(w, names, chroma, i),
            weights_of(r, names, chroma, i),
            e,
            tail,
            from,
        ),
{
    lemma_steps(e, tail, from);
}

/// The writer follows the reader through the weights of the references `i` up
/// to `count` of one list.
pub proof fn lemma_weights(
    w: Walk,
    r: Walk,
    names: WeightNames,
    chroma: bool,
    i: int,
    count: int,
    e: Walk,
    tail: Seq<Element>,
    from: Origin,
)
    requires
        reaches(weights(r, names, chroma, i, count), e),
    ensures
        reaches(r, e),
        follows(w, r, e, tail, from) ==> follows(
            weights(w, names, chroma, i, count),
            weights(r, names, chroma, i, count),
            e,
            tail,
            from,
        ),
    decreases count - i,
{
    if i < count && !r.failed() {
        lemma_weights(
            weights_of(w, names, chroma, i),
            weights_of(r, names, chroma, i),
            names,
            chroma,
            i + 1,
            count,
            e,
            tail,
            from,
        );
        lemma_weights_of(w, r, names, chroma, i, e, tail, from);
    }
}

/// The writer follows the reader through the prediction weight table of a
/// slice.
pub proof fn lemma_pred_weight_table(
    w: Walk,
    r: Walk,
    st: H264State,
    slice_type: SliceType,
    e: Walk,
    tail: Seq<Element>,
    from: Origin,
)
    requires
        reaches(pred_weight_table(r, st, slice_type), e),
    ensures
        reaches(r, e),
        follows(w, r, e, tail, from) ==> follows(
            pred_weight_table(w, st, slice_type),
            pred_weight_table(r, st, slice_type),
            e,
            tail,
            from,
        ),
{
    lemma_steps(e, tail, from);
    lemma_every_weights(e, tail, from);
}

/// The writer follows the reader through the operands of one memory
/// management control operation.
pub proof fn lemma_marking_operands(
    w: Walk,
    r: Walk,
    operation: i32,
    e: Walk,
    tail: Seq<Element>,
    from: Origin,
)
    requires
        reaches(marking_operands(r, operation), e),
    ensures
        reaches(r, e),
        follows(w, r, e, tail, from) ==> follows(
            marking_operands(w, operation),
            marking_operands(r, operation),
            e,
            tail,
            from,
        ),
{
    lemma_steps(e, tail, from);
}

/// The writer follows the reader through the memory management control
/// operations of a slice.
pub proof fn lemma_markings(w: Walk, r: Walk, e: Walk, tail: Seq<Element>, from: Origin)
    requires
        reaches(markings(r), e),
    ensures
        reaches(r, e),
        follows(w, r, e, tail, from) ==> follows(markings(w), markings(r), e, tail, from),
    decreases r.fuel(),
{
    lemma_steps(e, tail, from);
    let operation = crate::grammar::ue_value(r, "memory_management_control_operation"@);
    let r1 = crate::grammar::ue(r, "memory_management_control_operation"@);
    let w1 = crate::grammar::ue(w, "memory_management_control_operation"@);
    if r.wf() && !r.failed() && !r1.failed() && operation != 0 {
        crate::machine::lemma_field_fuel(
            r,
            "memory_management_control_operation"@,
            FieldType::UnsignedExpGolomb,
            0,
        );
        crate::grammar::lemma_marking_operands_fuel(r1, operation);
        lemma_markings(
            marking_operands(w1, operation),
            marking_operands(r1, operation),
            e,
            tail,
            from,
        );
        lemma_marking_operands(w1, r1, operation, e, tail, from);
    }
}

/// The writer follows the reader through the marking of decoded reference
/// pictures of a slice.
pub proof fn lemma_dec_ref_pic_marking(
    w: Walk,
    r: Walk,
    idr_pic_flag: bool,
    e: Walk,
    tail: Seq<Element>,
    from: Origin,
)
    requires
        reaches(dec_ref_pic_marking(r, idr_pic_flag), e),
    ensures
        reaches(r, e),
        follows(w, r, e, tail, from) ==> follows(
            dec_ref_pic_marking(w, idr_pic_flag),
            dec_ref_pic_marking(r, idr_pic_flag),
            e,
            tail,
            from,
        ),
{
    lemma_steps(e, tail, from);
    lemma_every_markings(e, tail, from);
}

/// Whether the fields of a slice header whose widths come from the
/// sequence parameter set are at most 32 bits wide.
pub open spec fn is_narrow_state(st: H264State) -> bool {
    st.log2_max_frame_num_minus4 + 4 <= 32 && st.log2_max_pic_order_cnt_lsb_minus4 + 4 <= 32
}

/// Whether the field of the given width that the reader's walk stands
/// before is canonical.
pub open spec fn sized_is_canonical(x: Walk, width: int) -> bool {
    0 <= width <= 64 ==> reads_canonical(x, FieldType::UnsignedInt, width as u8)
}

/// Whether `frame_num` and `pic_order_cnt_lsb` are canonical, for the
/// reader's walk `r` before `pic_parameter_set_id` in a slice header: where
/// one of them has more than 32 bits, those above the low 32 repeat the
/// highest of these.
pub open spec fn start_is_canonical(r: Walk, st: H264State, nalu_type: i32) -> bool {
    &&& sized_is_canonical(before_frame_num(r, st), st.log2_max_frame_num_minus4 + 4)
    &&& st.pic_order_cnt_type == 0 ==> sized_is_canonical(
        before_pic_order_cnt(r, st, nalu_type),
        st.log2_max_pic_order_cnt_lsb_minus4 + 4,
    )
}

/// The same for the reader's walk at the head of a slice header.
pub open spec fn header_is_canonical(r: Walk, st: H264State, nalu_type: i32) -> bool {
    start_is_canonical(
        crate::grammar::ue(crate::grammar::ue(r, "first_mb_in_slice"@), "slice_type"@),
        st,
        nalu_type,
    )
}

/// The same for the reader's walk at the head of a unit, where the unit
/// is a slice; a unit of another type has no such field.
pub open spec fn unit_is_canonical(r: Walk, st: H264State) -> bool {
    let nalu_type = crate::grammar::nal_unit_type(r);
    let x = crate::grammar::bits(
        crate::grammar::bits(crate::grammar::bit(r, "forbidden_zero_bit"@), "nal_ref_idc"@, 2),
        "nal_unit_type"@,
        5,
    );
    1 <= nalu_type <= 5 ==> header_is_canonical(
        x.inner("slice"@).inner("slice_header"@),
        st,
        nalu_type,
    )
}

/// A slice in a state with narrow fields has canonical fields.
pub proof fn lemma_narrow_is_canonical(r: Walk, st: H264State)
    requires
        is_narrow_state(st),
    ensures
        unit_is_canonical(r, st),
{
}

/// The writer follows the reader through the first part of a slice header.
pub proof fn lemma_slice_header_start(
    w: Walk,
    r: Walk,
    st: H264State,
    nalu_type: i32,
    e: Walk,
    tail: Seq<Element>,
    from: Origin,
)
    requires
        reaches(slice_header_start(r, st, nalu_type), e),
        start_is_canonical(r, st, nalu_type),
    ensures
        reaches(r, e),
        follows(w, r, e, tail, from) ==> follows(
            slice_header_start(w, st, nalu_type),
            slice_header_start(r, st, nalu_type),
            e,
            tail,
            from,
        ),
{
    lemma_steps(e, tail, from);
}

/// The writer follows the reader through the part of a slice header about the
/// numbers of reference pictures.
pub proof fn lemma_slice_header_counts(
    w: Walk,
    r: Walk,
    slice_type: SliceType,
    e: Walk,
    tail: Seq<Element>,
    from: Origin,
)
    requires
        reaches(slice_header_counts(r, slice_type), e),
    ensures
        reaches(r, e),
        follows(w, r, e, tail, from) ==> follows(
            slice_header_counts(w, slice_type),
            slice_header_counts(r, slice_type),
            e,
            tail,
            from,
        ),
{
    lemma_steps(e, tail, from);
}

/// The modification of the reference picture lists in its subnode.
pub proof fn lemma_list_node(
    w: Walk,
    r: Walk,
    name: Seq<char>,
    slice_type: SliceType,
    e: Walk,
    tail: Seq<Element>,
    from: Origin,
)
    requires
        reaches(subnode(r, name, ref_pic_list_modification(r.inner(name), slice_type)), e),
    ensures
        reaches(r, e),
        follows(w, r, e, tail, from) ==> follows(
            subnode(w, name, ref_pic_list_modification(w.inner(name), slice_type)),
            subnode(r, name, ref_pic_list_modification(r.inner(name), slice_type)),
            e,
            tail,
            from,
        ),
{
    let done = ref_pic_list_modification(r.inner(name), slice_type);
    let written = ref_pic_list_modification(w.inner(name), slice_type);
    lemma_closed(r, name, done, e);
    lemma_ref_pic_list_modification(
        w.inner(name),
        r.inner(name),
        slice_type,
        done,
        Seq::empty(),
        from,
    );
    lemma_subnode(w, r, name, done, written, e, tail, from);
}

/// The prediction weight table in its subnode.
pub proof fn lemma_table_node(
    w: Walk,
    r: Walk,
    st: H264State,
    slice_type: SliceType,
    e: Walk,
    tail: Seq<Element>,
    from: Origin,
)
    requires
        reaches(
            subnode(
                r,
                "pred_weight_table"@,
                pred_weight_table(r.inner("pred_weight_table"@), st, slice_type),
            ),
            e,
        ),
    ensures
        reaches(r, e),
        follows(w, r, e, tail, from) ==> follows(
            subnode(
                w,
                "pred_weight_table"@,
                pred_weight_table(w.inner("pred_weight_table"@), st, slice_type),
            ),
            subnode(
                r,
                "pred_weight_table"@,
                pred_weight_table(r.inner("pred_weight_table"@), st, slice_type),
            ),
            e,
            tail,
            from,
        ),
{
    let name = "pred_weight_table"@;
    let done = pred_weight_table(r.inner(name), st, slice_type);
    let written = pred_weight_table(w.inner(name), st, slice_type);
    lemma_closed(r, name, done, e);
    lemma_pred_weight_table(w.inner(name), r.inner(name), st, slice_type, done, Seq::empty(), from);
    lemma_subnode(w, r, name, done, written, e, tail, from);
}

/// The marking of decoded reference pictures in its subnode.
pub proof fn lemma_marking_node(
    w: Walk,
    r: Walk,
    idr_pic_flag: bool,
    e: Walk,
    tail: Seq<Element>,
    from: Origin,
)
    requires
        reaches(
            subnode(
                r,
                "dec_ref_pic_marking"@,
                dec_ref_pic_marking(r.inner("dec_ref_pic_marking"@), idr_pic_flag),
            ),
            e,
        ),
    ensures
        reaches(r, e),
        follows(w, r, e, tail, from) ==> follows(
            subnode(
                w,
                "dec_ref_pic_marking"@,
                dec_ref_pic_marking(w.inner("dec_ref_pic_marking"@), idr_pic_flag),
            ),
            subnode(
                r,
                "dec_ref_pic_marking"@,
                dec_ref_pic_marking(r.inner("dec_ref_pic_marking"@), idr_pic_flag),
            ),
            e,
            tail,
            from,
        ),
{
    let name = "dec_ref_pic_marking"@;
    let done = dec_ref_pic_marking(r.inner(name), idr_pic_flag);
    let written = dec_ref_pic_marking(w.inner(name), idr_pic_flag);
    lemma_closed(r, name, done, e);
    lemma_dec_ref_pic_marking(w.inner(name), r.inner(name), idr_pic_flag, done, Seq::empty(), from);
    lemma_subnode(w, r, name, done, written, e, tail, from);
}

/// The writer follows the reader through the part of a slice header about
/// reference pictures.
pub proof fn lemma_slice_header_refs(
    w: Walk,
    r: Walk,
    st: H264State,
    slice_type: SliceType,
    nalu_type: i32,
    nal_ref_idc: i32,
    e: Walk,
    tail: Seq<Element>,
    from: Origin,
)
    requires
        reaches(slice_header_refs(r, st, slice_type, nalu_type, nal_ref_idc), e),
    ensures
        reaches(r, e),
        follows(w, r, e, tail, from) ==> follows(
            slice_header_refs(w, st, slice_type, nalu_type, nal_ref_idc),
            slice_header_refs(r, st, slice_type, nalu_type, nal_ref_idc),
            e,
            tail,
            from,
        ),
{
    let list_name = list_modification_name(nalu_type);
    let r1 = slice_header_counts(r, slice_type);
    let w1 = slice_header_counts(w, slice_type);
    let r2 = subnode(r1, list_name, ref_pic_list_modification(r1.inner(list_name), slice_type));
    let w2 = subnode(w1, list_name, ref_pic_list_modification(w1.inner(list_name), slice_type));
    let r3 = if has_weight_table(st, slice_type) {
        subnode(
            r2,
            "pred_weight_table"@,
            pred_weight_table(r2.inner("pred_weight_table"@), st, slice_type),
        )
    } else {
        r2
    };
    let w3 = if has_weight_table(st, slice_type) {
        subnode(
            w2,
            "pred_weight_table"@,
            pred_weight_table(w2.inner("pred_weight_table"@), st, slice_type),
        )
    } else {
        w2
    };
    if nal_ref_idc != 0 {
        lemma_marking_node(w3, r3, nalu_type == 5, e, tail, from);
    }
    if has_weight_table(st, slice_type) {
        lemma_table_node(w2, r2, st, slice_type, e, tail, from);
    }
    lemma_list_node(w1, r1, list_name, slice_type, e, tail, from);
    lemma_slice_header_counts(w, r, slice_type, e, tail, from);
}

/// The width of `slice_group_change_cycle` is at most 32 bits.
pub proof fn lemma_change_cycle_width(st: H264State)
    ensures
        change_cycle_width(st) <= 32,
{
    let units = st.pic_size_in_map_units_minus1 + 1;
    let rate = st.slice_group_change_rate_minus1 + 1;
    if rate > 0 {
        vstd::arithmetic::power2::lemma2_to64();
        let q = (units + rate - 1) / rate;
        assert(q <= 0x8000_0000) by (nonlinear_arith)
            requires
                q == (units + rate - 1) / rate,
                rate >= 1,
                units <= 0x8000_0000,
        ;
        lemma_ceil_log2_bound(q + 1, 32);
    }
}

/// The writer follows the reader through the last part of a slice header.
pub proof fn lemma_slice_header_end(
    w: Walk,
    r: Walk,
    st: H264State,
    slice_type: SliceType,
    e: Walk,
    tail: Seq<Element>,
    from: Origin,
)
    requires
        reaches(slice_header_end(r, st, slice_type), e),
    ensures
        reaches(r, e),
        follows(w, r, e, tail, from) ==> follows(
            slice_header_end(w, st, slice_type),
            slice_header_end(r, st, slice_type),
            e,
            tail,
            from,
        ),
{
    lemma_steps(e, tail, from);
    lemma_change_cycle_width(st);
}

/// The writer follows the reader through a slice header.
pub proof fn lemma_slice_header(
    w: Walk,
    r: Walk,
    st: H264State,
    nalu_type: i32,
    nal_ref_idc: i32,
    e: Walk,
    tail: Seq<Element>,
    from: Origin,
)
    requires
        reaches(slice_header(r, st, nalu_type, nal_ref_idc), e),
        header_is_canonical(r, st, nalu_type),
    ensures
        reaches(r, e),
        follows(w, r, e, tail, from) ==> follows(
            slice_header(w, st, nalu_type, nal_ref_idc),
            slice_header(r, st, nalu_type, nal_ref_idc),
            e,
            tail,
            from,
        ),
{
    lemma_steps(e, tail, from);
    let r1 = crate::grammar::ue(r, "first_mb_in_slice"@);
    let w1 = crate::grammar::ue(w, "first_mb_in_slice"@);
    let slice_type = crate::state::slice_type_of(
        crate::grammar::ue_value(r1, "slice_type"@) as int,
    );
    let r2 = crate::grammar::ue(r1, "slice_type"@);
    let w2 = crate::grammar::ue(w1, "slice_type"@);
    let r3 = slice_header_start(r2, st, nalu_type);
    let w3 = slice_header_start(w2, st, nalu_type);
    let r4 = slice_header_refs(r3, st, slice_type, nalu_type, nal_ref_idc);
    let w4 = slice_header_refs(w3, st, slice_type, nalu_type, nal_ref_idc);
    lemma_slice_header_end(w4, r4, st, slice_type, e, tail, from);
    lemma_slice_header_refs(w3, r3, st, slice_type, nalu_type, nal_ref_idc, e, tail, from);
    lemma_slice_header_start(w2, r2, st, nalu_type, e, tail, from);
}

/// The writer follows the reader through a slice.
pub proof fn lemma_slice(
    w: Walk,
    r: Walk,
    st: H264State,
    nalu_type: i32,
    nal_ref_idc: i32,
    e: Walk,
    tail: Seq<Element>,
    from: Origin,
)
    requires
        reaches(slice(r, st, nalu_type, nal_ref_idc), e),
        header_is_canonical(r.inner("slice_header"@), st, nalu_type),
    ensures
        reaches(r, e),
        e.m.pos == 8 * e.m.bytes.len(),
        follows(w, r, e, tail, from) ==> follows(
            slice(w, st, nalu_type, nal_ref_idc),
            slice(r, st, nalu_type, nal_ref_idc),
            e,
            tail,
            from,
        ),
{
    lemma_steps(e, tail, from);
    let name = "slice_header"@;
    let done = slice_header(r.inner(name), st, nalu_type, nal_ref_idc);
    let written = slice_header(w.inner(name), st, nalu_type, nal_ref_idc);
    let r1 = subnode(r, name, done);
    lemma_closed(r, name, done, e);
    lemma_slice_header(
        w.inner(name),
        r.inner(name),
        st,
        nalu_type,
        nal_ref_idc,
        done,
        Seq::empty(),
        from,
    );
    lemma_subnode(w, r, name, done, written, e, tail, from);
}

/// A slice in its subnode.
pub proof fn lemma_slice_node(
    w: Walk,
    r: Walk,
    st: H264State,
    nalu_type: i32,
    nal_ref_idc: i32,
    e: Walk,
    tail: Seq<Element>,
    from: Origin,
)
    requires
        reaches(subnode(r, "slice"@, slice(r.inner("slice"@), st, nalu_type, nal_ref_idc)), e),
        header_is_canonical(r.inner("slice"@).inner("slice_header"@), st, nalu_type),
    ensures
        reaches(r, e),
        e.m.pos == 8 * e.m.bytes.len(),
        follows(w, r, e, tail, from) ==> follows(
            subnode(w, "slice"@, slice(w.inner("slice"@), st, nalu_type, nal_ref_idc)),
            subnode(r, "slice"@, slice(r.inner("slice"@), st, nalu_type, nal_ref_idc)),
            e,
            tail,
            from,
        ),
{
    let name = "slice"@;
    let done = slice(r.inner(name), st, nalu_type, nal_ref_idc);
    let written = slice(w.inner(name), st, nalu_type, nal_ref_idc);
    lemma_closed(r, name, done, e);
    lemma_slice(w.inner(name), r.inner(name), st, nalu_type, nal_ref_idc, done, Seq::empty(), from);
    lemma_subnode(w, r, name, done, written, e, tail, from);
}

/// A sequence parameter set in its subnode.
pub proof fn lemma_sps_node(
    w: Walk,
    r: Walk,
    st: H264State,
    e: Walk,
    tail: Seq<Element>,
    from: Origin,
)
    requires
        reaches(subnode(r, "sps"@, sps(r.inner("sps"@), st).w), e),
    ensures
        reaches(r, e),
        e.m.pos == 8 * e.m.bytes.len(),
        follows(w, r, e, tail, from) ==> follows(
            subnode(w, "sps"@, sps(w.inner("sps"@), st).w),
            subnode(r, "sps"@, sps(r.inner("sps"@), st).w),
            e,
            tail,
            from,
        ) && sps(w.inner("sps"@), st).st == sps(r.inner("sps"@), st).st,
{
    let name = "sps"@;
    let done = sps(r.inner(name), st).w;
    let written = sps(w.inner(name), st).w;
    lemma_closed(r, name, done, e);
    lemma_sps(w.inner(name), r.inner(name), st, done, Seq::empty(), from);
    lemma_subnode(w, r, name, done, written, e, tail, from);
}

/// A picture parameter set in its subnode.
pub proof fn lemma_pps_node(
    w: Walk,
    r: Walk,
    st: H264State,
    e: Walk,
    tail: Seq<Element>,
    from: Origin,
)
    requires
        reaches(subnode(r, "pps"@, pps(r.inner("pps"@), st).w), e),
    ensures
        reaches(r, e),
        e.m.pos == 8 * e.m.bytes.len(),
        follows(w, r, e, tail, from) ==> follows(
            subnode(w, "pps"@, pps(w.inner("pps"@), st).w),
            subnode(r, "pps"@, pps(r.inner("pps"@), st).w),
            e,
            tail,
            from,
        ) && pps(w.inner("pps"@), st).st == pps(r.inner("pps"@), st).st,
{
    let name = "pps"@;
    let done = pps(r.inner(name), st).w;
    let written = pps(w.inner(name), st).w;
    lemma_closed(r, name, done, e);
    lemma_pps(w.inner(name), r.inner(name), st, done, from);
    lemma_subnode(w, r, name, done, written, e, tail, from);
}

/// A payload that is carried through as it is, in its subnode.
pub proof fn lemma_filler_node(
    w: Walk,
    r: Walk,
    name: Seq<char>,
    e: Walk,
    tail: Seq<Element>,
    from: Origin,
)
    requires
        reaches(subnode(r, name, filler(r.inner(name))), e),
    ensures
        reaches(r, e),
        e.m.pos == 8 * e.m.bytes.len(),
        follows(w, r, e, tail, from) ==> follows(
            subnode(w, name, filler(w.inner(name))),
            subnode(r, name, filler(r.inner(name))),
            e,
            tail,
            from,
        ),
{
    let done = filler(r.inner(name));
    let written = filler(w.inner(name));
    lemma_closed(r, name, done, e);
    lemma_filler(w.inner(name), r.inner(name), done, Seq::empty(), from);
    lemma_subnode(w, r, name, done, written, e, tail, from);
}

/// What follows the header of a NAL unit, which takes its unit to the end.
pub proof fn lemma_nalu_body(
    w: Walk,
    r: Walk,
    st: H264State,
    nalu_type: i32,
    nal_ref_idc: i32,
    e: Walk,
    tail: Seq<Element>,
    from: Origin,
)
    requires
        reaches(nalu_body(r, st, nalu_type, nal_ref_idc).w, e),
        1 <= nalu_type <= 5 ==> header_is_canonical(
            r.inner("slice"@).inner("slice_header"@),
            st,
            nalu_type,
        ),
    ensures
        reaches(r, e),
        e.m.pos == 8 * e.m.bytes.len(),
        follows(w, r, e, tail, from) ==> follows(
            nalu_body(w, st, nalu_type, nal_ref_idc).w,
            nalu_body(r, st, nalu_type, nal_ref_idc).w,
            e,
            tail,
            from,
        ) && nalu_body(w, st, nalu_type, nal_ref_idc).st == nalu_body(
            r,
            st,
            nalu_type,
            nal_ref_idc,
        ).st,
{
    if 1 <= nalu_type <= 5 {
        lemma_slice_node(w, r, st, nalu_type, nal_ref_idc, e, tail, from);
    } else if nalu_type == 7 {
        lemma_sps_node(w, r, st, e, tail, from);
    } else if nalu_type == 8 {
        lemma_pps_node(w, r, st, e, tail, from);
    } else if nalu_type == 12 {
        lemma_filler_node(w, r, "filler_nalu"@, e, tail, from);
    } else {
        lemma_filler_node(w, r, "unparsed_nalu"@, e, tail, from);
    }
}

/// A NAL unit.
pub proof fn lemma_nalu(
    w: Walk,
    r: Walk,
    st: H264State,
    e: Walk,
    tail: Seq<Element>,
    from: Origin,
)
    requires
        reaches(nalu(r, st).w, e),
        unit_is_canonical(r, st),
    ensures
        reaches(r, e),
        e.m.pos == 8 * e.m.bytes.len(),
        follows(w, r, e, tail, from) ==> follows(nalu(w, st).w, nalu(r, st).w, e, tail, from)
            && nalu(w, st).st == nalu(r, st).st,
{
    reveal(nalu);
    lemma_steps(e, tail, from);
    let r1 = crate::grammar::bit(r, "forbidden_zero_bit"@);
    let w1 = crate::grammar::bit(w, "forbidden_zero_bit"@);
    let nal_ref_idc = crate::grammar::bits_value(r1, "nal_ref_idc"@, 2);
    let r2 = crate::grammar::bits(r1, "nal_ref_idc"@, 2);
    let w2 = crate::grammar::bits(w1, "nal_ref_idc"@, 2);
    let nalu_type = crate::grammar::bits_value(r2, "nal_unit_type"@, 5);
    let r3 = crate::grammar::bits(r2, "nal_unit_type"@, 5);
    let w3 = crate::grammar::bits(w2, "nal_unit_type"@, 5);
    lemma_nalu_body(w3, r3, st, nalu_type, nal_ref_idc, e, tail, from);
}

} // verus!
