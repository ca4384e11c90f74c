use h264_syntax::{
    parse_h264, serialize_h264, try_serialize_h264, BitstreamProcessor, BitstreamReader,
    BitstreamWriter, ErrorKind, FieldType, SyntaxElement, SyntaxField, SyntaxNode, SyntaxPayload,
};

fn f(name: &str, val: i32) -> SyntaxElement {
    SyntaxElement::Field(SyntaxField { name: name.to_string(), val })
}

fn p(name: &str, data: Vec<u8>) -> SyntaxElement {
    SyntaxElement::Payload(SyntaxPayload { name: name.to_string(), data })
}

fn n(name: &str, children: Vec<SyntaxElement>) -> SyntaxElement {
    SyntaxElement::Node(SyntaxNode { name: name.to_string(), children: children.into() })
}

fn nalu(ref_idc: i32, unit_type: i32, body: SyntaxElement) -> SyntaxElement {
    n(
        "nalu",
        vec![
            f("forbidden_zero_bit", 0),
            f("nal_ref_idc", ref_idc),
            f("nal_unit_type", unit_type),
            body,
        ],
    )
}

fn text_of(trees: &Vec<SyntaxElement>) -> String {
    let mut text = String::new();
    for tree in trees {
        text = format!("{}{}", text, tree.to_string());
    }
    text
}

fn without_payloads(text: &str) -> Vec<String> {
    text.split('\n').filter(|row| !row.contains('"')).map(|row| row.to_string()).collect()
}

/// Encodes the trees, decodes the bytes and encodes again: the bytes must
/// be the same, and the text must be the same but for the payloads.
fn there_and_back(trees: Vec<SyntaxElement>) -> (String, Vec<u8>) {
    let text = text_of(&trees);
    let bytes = serialize_h264(text.clone());
    let decoded = text_of(&parse_h264(&bytes));
    assert_eq!(without_payloads(&decoded), without_payloads(&text));
    assert_eq!(serialize_h264(decoded.clone()), bytes);
    (decoded, bytes)
}

fn baseline_sps() -> SyntaxElement {
    nalu(
        3,
        7,
        n(
            "sps",
            vec![
                f("profile_idc", 66),
                f("constraint_set0_flag", 0),
                f("constraint_set1_flag", 0),
                f("constraint_set2_flag", 0),
                f("constraint_set3_flag", 0),
                f("constraint_set4_flag", 0),
                f("constraint_set5_flag", 0),
                f("reserved_zero_2bits", 0),
                f("level_idc", 30),
                f("seq_paramter_set_id", 0),
                f("log2_max_frame_num_minus4", 0),
                f("pic_order_cnt_type", 0),
                f("log2_max_pic_order_cnt_lsb_minus4", 0),
                f("max_num_ref_frames", 1),
                f("gaps_in_frame_num_value_allowed_flag", 0),
                f("pic_width_in_mbs_minus1", 19),
                f("pic_height_in_mbs_minus1", 14),
                f("frame_mbs_only_flag", 1),
                f("direct_8x8_inference_flag", 1),
                f("frame_cropping_flag", 0),
                f("vui_parameters_present_flag", 0),
                p("trailing_bits", vec![0x08]),
            ],
        ),
    )
}

#[test]
fn a_high_profile_sps_with_scaling_lists_goes_there_and_back() {
    let mut fields = vec![
        f("profile_idc", 100),
        f("constraint_set0_flag", 1),
        f("constraint_set1_flag", 0),
        f("constraint_set2_flag", 1),
        f("constraint_set3_flag", 0),
        f("constraint_set4_flag", 1),
        f("constraint_set5_flag", 0),
        f("reserved_zero_2bits", 0),
        f("level_idc", 40),
        f("seq_paramter_set_id", 3),
        f("chroma_format_idc", 3),
        f("separate_color_plane_flag", 1),
        f("bit_depth_luma_minus8", 2),
        f("bit_depth_chroma_minus8", 2),
        f("qpprime_y_zero_transform_bypass_flag", 0),
        f("seq_scaling_matrix_present_flag", 1),
    ];
    for i in 0..12 {
        let name = format!("seq_scaling_list_present_flag[{}]", i);
        if i == 0 {
            fields.push(f(&name, 1));
            fields.push(n("scaling_list4x4", vec![f("delta_scale", -8)]));
        } else if i == 1 {
            fields.push(f(&name, 1));
            let mut deltas = Vec::new();
            for k in 0..16 {
                deltas.push(f("delta_scale", k - 3));
            }
            fields.push(n("scaling_list4x4", deltas));
        } else if i == 7 {
            fields.push(f(&name, 1));
            fields.push(n("scaling_list8x8", vec![f("delta_scale", 1), f("delta_scale", -9)]));
        } else {
            fields.push(f(&name, 0));
        }
    }
    fields.extend(vec![
        f("log2_max_frame_num_minus4", 4),
        f("pic_order_cnt_type", 1),
        f("delta_pic_order_always_zero_flag", 0),
        f("offset_for_non_ref_pic", -3),
        f("offset_for_top_to_bottom_field", 2),
        f("num_ref_frames_in_pic_order_cnt_cycle", 2),
        f("offset_for_ref_frame[0]", 5),
        f("offset_for_ref_frame[1]", -5),
        f("max_num_ref_frames", 4),
        f("gaps_in_frame_num_value_allowed_flag", 0),
        f("pic_width_in_mbs_minus1", 119),
        f("pic_height_in_mbs_minus1", 67),
        f("frame_mbs_only_flag", 0),
        f("mb_adaptive_frame_field_flag", 1),
        f("direct_8x8_inference_flag", 1),
        f("frame_cropping_flag", 1),
        f("frame_crop_left_offset", 0),
        f("frame_crop_right_offset", 1),
        f("frame_crop_top_offset", 2),
        f("frame_crop_bottom_offset", 3),
        f("vui_parameters_present_flag", 1),
        p("unparsed_vui_params", vec![0x01, 0x02, 0x03]),
    ]);
    let (decoded, _) = there_and_back(vec![nalu(3, 7, n("sps", fields))]);
    assert!(decoded.contains("\t\tunparsed_vui_params: \""));
    assert!(decoded.contains("\t\tscaling_list8x8 {\n\t\t\tdelta_scale: 1\n\t\t\tdelta_scale: -9\n\t\t}\n"));
}

fn rich_pps() -> SyntaxElement {
    let mut fields = vec![
        f("pic_parameter_set_id", 0),
        f("seq_parameter_set_id", 0),
        f("entropy_coding_mode_flag", 1),
        f("bottom_field_pic_order_in_frame_present_flag", 0),
        f("num_slice_groups_minus1", 1),
        f("slice_group_map_type", 3),
        f("slice_group_change_direction_flag", 0),
        f("slice_group_change_rate_minus1", 3),
        f("num_ref_idx_l0_default_active_minus1", 1),
        f("num_ref_idx_l1_default_active_minus1", 0),
        f("weighted_pred_flag", 1),
        f("weighted_bipred_idc", 0),
        f("pic_init_qp_minus26", -2),
        f("pic_init_qs_minus26", 3),
        f("chroma_qp_index_offset", -1),
        f("deblocking_filter_control_present_flag", 1),
        f("constrained_intra_pred_flag", 0),
        f("redundant_pic_cnt_present_flag", 0),
        f("transform_8x8_mode_flag", 1),
        f("pic_scaling_matrix_present_flag", 1),
    ];
    for i in 0..8 {
        let name = format!("pic_scaling_list_present_flag[{}]", i);
        if i == 6 {
            fields.push(f(&name, 1));
            fields.push(n("scaling_list8x8", vec![f("delta_scale", -8)]));
        } else {
            fields.push(f(&name, 0));
        }
    }
    fields.push(f("second_chroma_qp_index_offset", -2));
    fields.push(p("trailing_bits", vec![0x01]));
    nalu(3, 8, n("pps", fields))
}

fn p_slice() -> SyntaxElement {
    let header = vec![
        f("first_mb_in_slice", 0),
        f("slice_type", 5),
        f("pic_parameter_set_id", 0),
        f("frame_num", 3),
        f("pic_order_cnt_lsb", 6),
        f("num_ref_idx_active_override_flag", 1),
        f("num_ref_idx_l0_active_minus1", 2),
        n(
            "ref_pic_list_modification",
            vec![
                f("ref_pic_list_modification_flag_l0", 1),
                f("modification_of_pic_nums_idc", 0),
                f("abs_diff_pic_num_minus1", 4),
                f("modification_of_pic_nums_idc", 2),
                f("long_term_pic_num", 1),
                f("modification_of_pic_nums_idc", 5),
                f("abs_diff_view_idx_minus1", 7),
                f("modification_of_pic_nums_idc", 3),
            ],
        ),
        n(
            "pred_weight_table",
            vec![
                f("luma_log2_weight_denom", 5),
                f("chroma_log2_weight_denom", 5),
                f("luma_weight_l0_flag", 1),
                f("luma_weight_l0[0]", 3),
                f("luma_offset_l0[0]", -1),
                f("chroma_weight_l0_flag", 1),
                f("chroma_weight_l0[0][0]", 1),
                f("chroma_offset_l0[0][0]", 2),
                f("chroma_weight_l0[0][1]", 3),
                f("chroma_offset_l0[0][1]", 4),
                f("luma_weight_l0_flag", 0),
                f("chroma_weight_l0_flag", 0),
                f("luma_weight_l1_flag", 1),
                f("luma_weight_l1[0]", -7),
                f("luma_offset_l1[0]", 7),
                f("chroma_weight_l1_flag", 0),
            ],
        ),
        n(
            "dec_ref_pic_marking",
            vec![
                f("adaptive_ref_pic_marking_mode_flag", 1),
                f("memory_management_control_operation", 1),
                f("difference_of_pic_nums_minus1", 0),
                f("memory_management_control_operation", 3),
                f("difference_of_pic_nums_minus1", 1),
                f("long_term_frame_idx", 2),
                f("memory_management_control_operation", 2),
                f("long_term_pic_num", 0),
                f("memory_management_control_operation", 4),
                f("max_long_term_frame_idx_plus1", 1),
                f("memory_management_control_operation", 6),
                f("long_term_frame_idx", 1),
                f("memory_management_control_operation", 5),
                f("memory_management_control_operation", 0),
            ],
        ),
        f("cabac_init_idc", 1),
        f("slice_qp_delta", -4),
        f("disable_deblocking_filter_idc", 1),
        f("slice_group_change_cycle", 1),
    ];
    nalu(2, 1, n("slice", vec![n("slice_header", header), p("slice_payload", vec![0x01, 0xFE])]))
}

#[test]
fn a_pps_with_slice_groups_and_scaling_lists_goes_there_and_back() {
    let (decoded, _) = there_and_back(vec![baseline_sps(), rich_pps()]);
    assert!(decoded.contains("\t\tslice_group_change_rate_minus1: 3\n"));
    assert!(decoded.contains("\t\tpic_scaling_list_present_flag[7]: 0\n"));
}

#[test]
fn a_p_slice_with_all_its_tables_goes_there_and_back() {
    let (decoded, _) = there_and_back(vec![baseline_sps(), rich_pps(), p_slice()]);
    assert!(decoded.contains("\t\t\t\tchroma_offset_l0[0][1]: 4\n"));
    assert!(decoded.contains("\t\t\tslice_group_change_cycle: 1\n"));
}

#[test]
fn a_b_slice_without_override_has_no_counts_and_no_second_weights() {
    let pps = nalu(
        3,
        8,
        n(
            "pps",
            vec![
                f("pic_parameter_set_id", 0),
                f("seq_parameter_set_id", 0),
                f("entropy_coding_mode_flag", 0),
                f("bottom_field_pic_order_in_frame_present_flag", 1),
                f("num_slice_groups_minus1", 0),
                f("num_ref_idx_l0_default_active_minus1", 0),
                f("num_ref_idx_l1_default_active_minus1", 0),
                f("weighted_pred_flag", 0),
                f("weighted_bipred_idc", 1),
                f("pic_init_qp_minus26", 0),
                f("pic_init_qs_minus26", 0),
                f("chroma_qp_index_offset", 0),
                f("deblocking_filter_control_present_flag", 0),
                f("constrained_intra_pred_flag", 0),
                f("redundant_pic_cnt_present_flag", 1),
                p("trailing_bits", vec![0x01]),
            ],
        ),
    );
    let header = vec![
        f("first_mb_in_slice", 9),
        f("slice_type", 1),
        f("pic_parameter_set_id", 0),
        f("frame_num", 15),
        f("pic_order_cnt_lsb", 1),
        f("delta_pic_order_cnt_bottom", -1),
        f("redundant_pic_cnt", 2),
        f("direct_spatial_mv_pred_flag", 1),
        f("num_ref_idx_active_override_flag", 0),
        n(
            "ref_pic_list_modification",
            vec![
                f("ref_pic_list_modification_flag_l0", 0),
                f("ref_pic_list_modification_flag_l1", 1),
                f("modification_of_pic_nums_idc", 1),
                f("abs_diff_pic_num_minus1", 0),
                f("modification_of_pic_nums_idc", 3),
            ],
        ),
        n(
            "pred_weight_table",
            vec![
                f("luma_log2_weight_denom", 0),
                f("chroma_log2_weight_denom", 0),
                f("luma_weight_l0_flag", 0),
                f("chroma_weight_l0_flag", 0),
            ],
        ),
        f("slice_qp_delta", 0),
    ];
    let slice = nalu(
        0,
        1,
        n("slice", vec![n("slice_header", header), p("slice_payload", vec![0x00, 0x80])]),
    );
    let (decoded, _) = there_and_back(vec![baseline_sps(), pps, slice]);
    assert!(decoded.contains("\t\t\tdelta_pic_order_cnt_bottom: -1\n"));
}

#[test]
fn an_mvc_slice_names_its_list_modification_so() {
    let header = vec![
        f("first_mb_in_slice", 0),
        f("slice_type", 2),
        f("pic_parameter_set_id", 0),
        f("frame_num", 0),
        f("field_pic_flag", 0),
        f("pic_order_cnt_lsb", 0),
        n("ref_pic_list_mvc_modification", vec![]),
        f("slice_qp_delta", 0),
    ];
    let slice = nalu(0, 20, n("unparsed_nalu", vec![p("filler_data", vec![0x01])]));
    there_and_back(vec![slice]);
    let error = try_serialize_h264(text_of(&vec![nalu(0, 1, n("slice", vec![n("slice_header", header)]))]))
        .unwrap_err();
    assert_eq!(error.kind, ErrorKind::WrongName);
    assert_eq!(error.name, "ref_pic_list_modification");
}

#[test]
fn a_reader_appends_what_it_reads() {
    let bytes = [0b1010_0110u8, 0x42, 0x43];
    let mut reader = BitstreamReader::new(&bytes);
    let mut node = SyntaxNode { name: "root".to_string(), children: Default::default() };
    assert_eq!(reader.field(&mut node, "flag", FieldType::Boolean, 1), 1);
    assert_eq!(reader.field(&mut node, "two", FieldType::UnsignedInt, 2), 1);
    assert!(reader.more_data(&node));
    let mut sub = reader.subnode(&mut node, "sub");
    assert_eq!(sub.name, "sub");
    assert_eq!(reader.field(&mut sub, "code", FieldType::UnsignedExpGolomb, 0), 5);
    reader.end_subnode(&mut node, "sub", sub);
    assert_eq!(reader.field(&mut node, "three", FieldType::UnsignedInt, 3), 2);
    reader.payload(&mut node, "rest");
    assert!(!BitstreamProcessor::failed(&reader));
    assert_eq!(
        SyntaxElement::Node(node).to_string(),
        "root {\n\tflag: 1\n\ttwo: 1\n\tsub {\n\t\tcode: 5\n\t}\n\tthree: 2\n\trest: \"02 43\"\n}\n"
    );
}

#[test]
fn a_reader_keeps_its_first_failure_and_does_nothing_after_it() {
    let bytes = [0xFFu8];
    let mut reader = BitstreamReader::new(&bytes);
    let mut node = SyntaxNode { name: "root".to_string(), children: Default::default() };
    assert_eq!(reader.field(&mut node, "wide", FieldType::UnsignedInt, 9), 0);
    assert!(BitstreamProcessor::failed(&reader));
    assert_eq!(reader.field(&mut node, "later", FieldType::UnsignedInt, 4), 0);
    reader.payload(&mut node, "rest");
    let sub = reader.subnode(&mut node, "sub");
    reader.end_subnode(&mut node, "sub", sub);
    assert!(!reader.more_data(&node));
    BitstreamProcessor::raise(&mut reader, ErrorKind::BadWidth, "other");
    let fault = reader.fault().unwrap();
    assert_eq!(fault.kind, ErrorKind::Unreadable);
    assert_eq!(fault.name, "wide");
    assert_eq!(node.children.len(), 0);
    assert_eq!(reader.read(FieldType::UnsignedInt, 8), Some(0xFF));
}

#[test]
fn a_writer_takes_the_children_in_their_order() {
    let mut node = SyntaxNode {
        name: "root".to_string(),
        children: vec![
            f("flag", 1),
            n("sub", vec![f("code", 2), f("left", 9)]),
            f("two", 1),
            p("rest", vec![0x02, 0x42]),
        ]
        .into(),
    };
    let mut writer = BitstreamWriter::new();
    assert!(writer.more_data(&node));
    assert_eq!(writer.field(&mut node, "flag", FieldType::Boolean, 1), 1);
    let mut sub = writer.subnode(&mut node, "sub");
    assert_eq!(writer.field(&mut sub, "code", FieldType::UnsignedExpGolomb, 0), 2);
    writer.end_subnode(&mut node, "sub", sub);
    assert_eq!(writer.field(&mut node, "two", FieldType::UnsignedInt, 2), 1);
    assert!(!writer.more_data(&node));
    writer.payload(&mut node, "rest");
    assert!(!writer.more_data(&node));
    assert!(!BitstreamProcessor::failed(&writer));
    assert!(writer.fault().is_none());
    assert_eq!(node.children.len(), 0);
    assert_eq!(writer.into_bytes(), vec![0b1011_0110u8, 0x42]);
}

#[test]
fn a_writer_keeps_its_first_failure_and_does_nothing_after_it() {
    let mut node = SyntaxNode {
        name: "root".to_string(),
        children: vec![f("a", 1), f("b", 2)].into(),
    };
    let mut writer = BitstreamWriter::new();
    assert_eq!(writer.field(&mut node, "b", FieldType::UnsignedInt, 8), 0);
    assert!(BitstreamProcessor::failed(&writer));
    assert_eq!(writer.field(&mut node, "a", FieldType::UnsignedInt, 8), 0);
    writer.payload(&mut node, "a");
    assert!(!writer.more_data(&node));
    let fault = writer.fault().unwrap();
    assert_eq!(fault.kind, ErrorKind::WrongName);
    assert_eq!(fault.name, "b");
    assert_eq!(fault.found, "a");
    assert_eq!(node.children.len(), 2);
    assert_eq!(writer.into_bytes(), Vec::<u8>::new());
}

#[test]
fn a_writer_looks_one_child_ahead() {
    let writer = BitstreamWriter::new();
    let empty = SyntaxNode { name: "n".to_string(), children: Default::default() };
    assert!(!writer.more_data(&empty));
    let last = SyntaxNode { name: "n".to_string(), children: vec![p("x", vec![])].into() };
    assert!(!writer.more_data(&last));
    let one = SyntaxNode { name: "n".to_string(), children: vec![f("x", 0)].into() };
    assert!(writer.more_data(&one));
    let two = SyntaxNode {
        name: "n".to_string(),
        children: vec![p("x", vec![]), p("y", vec![])].into(),
    };
    assert!(writer.more_data(&two));
}

fn b_slice_pps() -> SyntaxElement {
    nalu(
        3,
        8,
        n(
            "pps",
            vec![
                f("pic_parameter_set_id", 0),
                f("seq_parameter_set_id", 0),
                f("entropy_coding_mode_flag", 0),
                f("bottom_field_pic_order_in_frame_present_flag", 0),
                f("num_slice_groups_minus1", 0),
                f("num_ref_idx_l0_default_active_minus1", 0),
                f("num_ref_idx_l1_default_active_minus1", 0),
                f("weighted_pred_flag", 0),
                f("weighted_bipred_idc", 0),
                f("pic_init_qp_minus26", 0),
                f("pic_init_qs_minus26", 0),
                f("chroma_qp_index_offset", 0),
                f("deblocking_filter_control_present_flag", 0),
                f("constrained_intra_pred_flag", 0),
                f("redundant_pic_cnt_present_flag", 0),
                p("trailing_bits", vec![0x01]),
            ],
        ),
    )
}

fn b_slice(counts: Vec<SyntaxElement>) -> SyntaxElement {
    let mut header = vec![
        f("first_mb_in_slice", 0),
        f("slice_type", 1),
        f("pic_parameter_set_id", 0),
        f("frame_num", 2),
        f("pic_order_cnt_lsb", 4),
        f("direct_spatial_mv_pred_flag", 1),
    ];
    header.extend(counts);
    header.extend(vec![
        n(
            "ref_pic_list_modification",
            vec![
                f("ref_pic_list_modification_flag_l0", 0),
                f("ref_pic_list_modification_flag_l1", 0),
            ],
        ),
        f("slice_qp_delta", 3),
    ]);
    nalu(0, 1, n("slice", vec![n("slice_header", header), p("slice_payload", vec![0x80])]))
}

#[test]
fn a_b_slice_with_override_has_both_counts() {
    let counts = vec![
        f("num_ref_idx_active_override_flag", 1),
        f("num_ref_idx_l0_active_minus1", 2),
        f("num_ref_idx_l1_active_minus1", 1),
    ];
    let (decoded, _) = there_and_back(vec![baseline_sps(), b_slice_pps(), b_slice(counts)]);
    assert!(decoded.contains(
        "\t\t\tnum_ref_idx_active_override_flag: 1\n\t\t\tnum_ref_idx_l0_active_minus1: 2\n\t\t\tnum_ref_idx_l1_active_minus1: 1\n\t\t\tref_pic_list_modification {\n"
    ));
}

#[test]
fn a_b_slice_without_override_goes_on_with_the_list_modification() {
    let counts = vec![f("num_ref_idx_active_override_flag", 0)];
    let (decoded, bytes) = there_and_back(vec![baseline_sps(), b_slice_pps(), b_slice(counts)]);
    assert!(decoded.contains(
        "\t\t\tnum_ref_idx_active_override_flag: 0\n\t\t\tref_pic_list_modification {\n"
    ));
    assert!(!decoded.contains("num_ref_idx_l1_active_minus1"));
    // The slice header: 1 | 010 | 1 | 0010 | 0100 | 1 | 0 | 0 0 | 00110, then
    // the two bits of the payload that fill the byte.
    let unit = &bytes[bytes.len() - 4..];
    assert_eq!(unit, &[0x01u8, 0xA9, 0x24, 0x18][..]);
    // A tree with the count of list 1 behind a flag that is not set is
    // refused: the list modification is expected there.
    let counts = vec![
        f("num_ref_idx_active_override_flag", 0),
        f("num_ref_idx_l1_active_minus1", 0),
    ];
    let text = text_of(&vec![baseline_sps(), b_slice_pps(), b_slice(counts)]);
    let error = try_serialize_h264(text).unwrap_err();
    assert_eq!(error.kind, ErrorKind::WrongShape);
    assert_eq!(error.name, "ref_pic_list_modification");
}

#[test]
fn a_p_slice_with_override_has_the_count_of_list_0_only() {
    let header = vec![
        f("first_mb_in_slice", 0),
        f("slice_type", 0),
        f("pic_parameter_set_id", 0),
        f("frame_num", 2),
        f("pic_order_cnt_lsb", 4),
        f("num_ref_idx_active_override_flag", 1),
        f("num_ref_idx_l0_active_minus1", 3),
        n("ref_pic_list_modification", vec![f("ref_pic_list_modification_flag_l0", 0)]),
        f("slice_qp_delta", 0),
    ];
    let slice =
        nalu(0, 1, n("slice", vec![n("slice_header", header), p("slice_payload", vec![0x80])]));
    let (decoded, _) = there_and_back(vec![baseline_sps(), b_slice_pps(), slice]);
    assert!(decoded.contains(
        "\t\t\tnum_ref_idx_l0_active_minus1: 3\n\t\t\tref_pic_list_modification {\n"
    ));
}

#[test]
fn a_field_of_more_than_32_bits_keeps_its_low_32_bits() {
    let sps = nalu(
        3,
        7,
        n(
            "sps",
            vec![
                f("profile_idc", 66),
                f("constraint_set0_flag", 0),
                f("constraint_set1_flag", 0),
                f("constraint_set2_flag", 0),
                f("constraint_set3_flag", 0),
                f("constraint_set4_flag", 0),
                f("constraint_set5_flag", 0),
                f("reserved_zero_2bits", 0),
                f("level_idc", 30),
                f("seq_paramter_set_id", 0),
                f("log2_max_frame_num_minus4", 36),
                f("pic_order_cnt_type", 2),
                f("max_num_ref_frames", 1),
                f("gaps_in_frame_num_value_allowed_flag", 0),
                f("pic_width_in_mbs_minus1", 19),
                f("pic_height_in_mbs_minus1", 14),
                f("frame_mbs_only_flag", 1),
                f("direct_8x8_inference_flag", 1),
                f("frame_cropping_flag", 0),
                f("vui_parameters_present_flag", 0),
                p("trailing_bits", vec![0x08]),
            ],
        ),
    );
    let slice = |frame_num: i32| {
        let header = vec![
            f("first_mb_in_slice", 0),
            f("slice_type", 7),
            f("pic_parameter_set_id", 0),
            f("frame_num", frame_num),
            n("ref_pic_list_modification", vec![]),
            f("slice_qp_delta", 0),
        ];
        nalu(0, 1, n("slice", vec![n("slice_header", header), p("slice_payload", vec![0x80])]))
    };
    // The header takes 8 + 1 + 7 + 1 bits; the 40 bits of frame_num repeat
    // the sign above the low 32.
    let (_, bytes) = there_and_back(vec![sps, slice(-2)]);
    let unit = &bytes[bytes.len() - 8..];
    assert_eq!(unit, &[0x01u8, 0x88, 0xFF, 0xFF, 0xFF, 0xFF, 0xFF, 0x40][..]);
    // Bits above the low 32 that say more are read and left behind: the
    // value is the same, and the bytes that are written are not.
    let mut other = bytes.clone();
    let at = other.len() - 6;
    other[at] = 0x80;
    let decoded = text_of(&parse_h264(&other));
    assert_eq!(decoded, text_of(&parse_h264(&bytes)));
    assert_eq!(serialize_h264(decoded), bytes);
}

