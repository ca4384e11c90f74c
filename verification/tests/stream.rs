use h264_syntax::{
    int_to_slice_type, parse_h264, serialize_h264, tokenize_h264_bitstream, try_parse_h264,
    try_serialize_h264, ErrorKind, FieldType, H264State, SliceType, SyntaxElement,
};

fn text_of(trees: &Vec<SyntaxElement>) -> String {
    let mut text = String::new();
    for tree in trees {
        text = format!("{}{}", text, tree.to_string());
    }
    text
}

const SPS: [u8; 12] = [0x00, 0x00, 0x00, 0x01, 0x67, 0x42, 0x00, 0x1E, 0xF4, 0x0A, 0x0F, 0xC8];

const PPS: [u8; 8] = [0x00, 0x00, 0x00, 0x01, 0x68, 0xCE, 0x3C, 0x80];

const IDR: [u8; 10] = [0x00, 0x00, 0x00, 0x01, 0x65, 0x88, 0x84, 0x0F, 0xAB, 0xCD];

const SPS_TEXT: &str = "nalu {\n\
\tforbidden_zero_bit: 0\n\
\tnal_ref_idc: 3\n\
\tnal_unit_type: 7\n\
\tsps {\n\
\t\tprofile_idc: 66\n\
\t\tconstraint_set0_flag: 0\n\
\t\tconstraint_set1_flag: 0\n\
\t\tconstraint_set2_flag: 0\n\
\t\tconstraint_set3_flag: 0\n\
\t\tconstraint_set4_flag: 0\n\
\t\tconstraint_set5_flag: 0\n\
\t\treserved_zero_2bits: 0\n\
\t\tlevel_idc: 30\n\
\t\tseq_paramter_set_id: 0\n\
\t\tlog2_max_frame_num_minus4: 0\n\
\t\tpic_order_cnt_type: 0\n\
\t\tlog2_max_pic_order_cnt_lsb_minus4: 0\n\
\t\tmax_num_ref_frames: 1\n\
\t\tgaps_in_frame_num_value_allowed_flag: 0\n\
\t\tpic_width_in_mbs_minus1: 19\n\
\t\tpic_height_in_mbs_minus1: 14\n\
\t\tframe_mbs_only_flag: 1\n\
\t\tdirect_8x8_inference_flag: 1\n\
\t\tframe_cropping_flag: 0\n\
\t\tvui_parameters_present_flag: 0\n\
\t\ttrailing_bits: \"08\"\n\
\t}\n\
}\n";

const PPS_TEXT: &str = "nalu {\n\
\tforbidden_zero_bit: 0\n\
\tnal_ref_idc: 3\n\
\tnal_unit_type: 8\n\
\tpps {\n\
\t\tpic_parameter_set_id: 0\n\
\t\tseq_parameter_set_id: 0\n\
\t\tentropy_coding_mode_flag: 0\n\
\t\tbottom_field_pic_order_in_frame_present_flag: 0\n\
\t\tnum_slice_groups_minus1: 0\n\
\t\tnum_ref_idx_l0_default_active_minus1: 0\n\
\t\tnum_ref_idx_l1_default_active_minus1: 0\n\
\t\tweighted_pred_flag: 0\n\
\t\tweighted_bipred_idc: 0\n\
\t\tpic_init_qp_minus26: 0\n\
\t\tpic_init_qs_minus26: 0\n\
\t\tchroma_qp_index_offset: 0\n\
\t\tdeblocking_filter_control_present_flag: 1\n\
\t\tconstrained_intra_pred_flag: 0\n\
\t\tredundant_pic_cnt_present_flag: 0\n\
\t\ttrailing_bits: \"80\"\n\
\t}\n\
}\n";

const IDR_TEXT: &str = "nalu {\n\
\tforbidden_zero_bit: 0\n\
\tnal_ref_idc: 3\n\
\tnal_unit_type: 5\n\
\tslice {\n\
\t\tslice_header {\n\
\t\t\tfirst_mb_in_slice: 0\n\
\t\t\tslice_type: 7\n\
\t\t\tpic_parameter_set_id: 0\n\
\t\t\tframe_num: 0\n\
\t\t\tidr_pic_id: 0\n\
\t\t\tpic_order_cnt_lsb: 0\n\
\t\t\tref_pic_list_modification {\n\
\t\t\t}\n\
\t\t\tdec_ref_pic_marking {\n\
\t\t\t\tno_output_of_prior_pics_flag: 0\n\
\t\t\t\tlong_term_reference_flag: 0\n\
\t\t\t}\n\
\t\t\tslice_qp_delta: 0\n\
\t\t\tdisable_deblocking_filter_idc: 0\n\
\t\t\tslice_alpha_c0_offset_div2: 0\n\
\t\t\tslice_beta_offset_div2: 0\n\
\t\t}\n\
\t\tslice_payload: \"AB CD\"\n\
\t}\n\
}\n";

fn stream(units: &[&[u8]]) -> Vec<u8> {
    let mut bytes = Vec::new();
    for unit in units {
        bytes.extend_from_slice(unit);
    }
    bytes
}

#[test]
fn minimal_sps_decodes_and_encodes_back() {
    let bytes = SPS.to_vec();
    let trees = parse_h264(&bytes);
    assert_eq!(trees.len(), 1);
    let text = text_of(&trees);
    assert_eq!(text, SPS_TEXT);
    assert!(text.contains("profile_idc: 66"));
    assert!(text.contains("level_idc: 30"));
    assert_eq!(serialize_h264(text), bytes);
}

#[test]
fn idr_slice_decodes_after_its_parameter_sets_and_encodes_back() {
    let bytes = stream(&[&SPS, &PPS, &IDR]);
    let trees = parse_h264(&bytes);
    assert_eq!(trees.len(), 3);
    let text = text_of(&trees);
    assert_eq!(text, format!("{}{}{}", SPS_TEXT, PPS_TEXT, IDR_TEXT));
    assert_eq!(serialize_h264(text), bytes);
}

#[test]
fn a_unit_of_unknown_type_is_carried_through() {
    let bytes = vec![0x00u8, 0x00, 0x00, 0x01, 0x1E, 0xDE, 0xAD];
    let trees = parse_h264(&bytes);
    let text = text_of(&trees);
    assert_eq!(
        text,
        "nalu {\n\tforbidden_zero_bit: 0\n\tnal_ref_idc: 0\n\tnal_unit_type: 30\n\tunparsed_nalu {\n\t\tfiller_data: \"DE AD\"\n\t}\n}\n"
    );
    assert_eq!(serialize_h264(text), bytes);
}

#[test]
fn a_filler_unit_is_carried_through() {
    let bytes = vec![0x00u8, 0x00, 0x00, 0x01, 0x0C, 0xFF, 0xFF, 0xFF, 0x80];
    let trees = parse_h264(&bytes);
    let text = text_of(&trees);
    assert_eq!(
        text,
        "nalu {\n\tforbidden_zero_bit: 0\n\tnal_ref_idc: 0\n\tnal_unit_type: 12\n\tfiller_nalu {\n\t\tfiller_data: \"FF FF FF 80\"\n\t}\n}\n"
    );
    assert_eq!(serialize_h264(text), bytes);
}

#[test]
fn a_unit_of_one_byte_has_an_empty_payload() {
    let bytes = vec![0x00u8, 0x00, 0x00, 0x01, 0x0C];
    let trees = parse_h264(&bytes);
    let text = text_of(&trees);
    assert_eq!(
        text,
        "nalu {\n\tforbidden_zero_bit: 0\n\tnal_ref_idc: 0\n\tnal_unit_type: 12\n\tfiller_nalu {\n\t\tfiller_data: \"\"\n\t}\n}\n"
    );
    assert_eq!(serialize_h264(text), bytes);
}

#[test]
fn decoding_the_encoded_text_gives_the_text_again() {
    let bytes = stream(&[&SPS, &PPS, &IDR, &[0x00, 0x00, 0x00, 0x01, 0x0C, 0xFF, 0x80]]);
    let text = text_of(&parse_h264(&bytes));
    let encoded = serialize_h264(text.clone());
    assert_eq!(encoded, bytes);
    assert_eq!(text_of(&parse_h264(&encoded)), text);
}

#[test]
fn start_codes_of_three_and_of_four_bytes_split_alike() {
    let three = vec![0x00u8, 0x00, 0x01, 0x0C, 0x11, 0x00, 0x00, 0x01, 0x0C, 0x22, 0x33];
    let four = vec![0x00u8, 0x00, 0x00, 0x01, 0x0C, 0x11, 0x00, 0x00, 0x00, 0x01, 0x0C, 0x22, 0x33];
    let mixed = vec![0x00u8, 0x00, 0x01, 0x0C, 0x11, 0x00, 0x00, 0x00, 0x01, 0x0C, 0x22, 0x33];
    let expected = text_of(&parse_h264(&four));
    assert!(expected.contains("filler_data: \"11\""));
    assert!(expected.contains("filler_data: \"22 33\""));
    assert_eq!(text_of(&parse_h264(&three)), expected);
    assert_eq!(text_of(&parse_h264(&mixed)), expected);
    assert_eq!(serialize_h264(expected), four);
}

#[test]
fn the_tokenizer_hands_back_a_reader_for_each_unit() {
    let bytes = vec![0x00u8, 0x00, 0x01, 0x09, 0x00, 0x00, 0x00, 0x01, 0x0A, 0x0B];
    let mut readers = tokenize_h264_bitstream(&bytes);
    assert_eq!(readers.len(), 2);
    assert_eq!(readers[0].read(FieldType::UnsignedInt, 8), Some(0x09));
    assert_eq!(readers[0].read(FieldType::UnsignedInt, 1), None);
    assert_eq!(readers[1].read(FieldType::UnsignedInt, 16), Some(0x0A0B));
    assert_eq!(readers[1].read(FieldType::UnsignedInt, 1), None);
}

#[test]
fn the_tokenizer_drops_empty_units() {
    let bytes = vec![0x00u8, 0x00, 0x01, 0x00, 0x00, 0x01, 0x05, 0x00, 0x00, 0x00, 0x01];
    let mut readers = tokenize_h264_bitstream(&bytes);
    assert_eq!(readers.len(), 1);
    assert_eq!(readers[0].read(FieldType::UnsignedInt, 8), Some(0x05));
    assert_eq!(readers[0].read(FieldType::UnsignedInt, 1), None);
    assert_eq!(tokenize_h264_bitstream(&Vec::new()).len(), 0);
    assert_eq!(tokenize_h264_bitstream(&vec![0x00u8, 0x00, 0x01]).len(), 0);
    assert_eq!(tokenize_h264_bitstream(&vec![0x00u8, 0x00, 0x00, 0x01]).len(), 0);
}

#[test]
fn the_tokenizer_keeps_what_stands_before_the_first_start_code() {
    let bytes = vec![0x07u8, 0x08, 0x00, 0x00, 0x01, 0x09];
    let mut readers = tokenize_h264_bitstream(&bytes);
    assert_eq!(readers.len(), 2);
    assert_eq!(readers[0].read(FieldType::UnsignedInt, 16), Some(0x0708));
    assert_eq!(readers[1].read(FieldType::UnsignedInt, 8), Some(0x09));
    let short = vec![0x00u8, 0x00];
    let mut readers = tokenize_h264_bitstream(&short);
    assert_eq!(readers.len(), 1);
    assert_eq!(readers[0].read(FieldType::UnsignedInt, 16), Some(0));
}

#[test]
fn a_zero_byte_before_a_start_code_of_three_bytes_belongs_to_the_start_code() {
    let bytes = vec![0x00u8, 0x00, 0x01, 0x0C, 0x00, 0x00, 0x00, 0x01, 0x0D];
    let mut readers = tokenize_h264_bitstream(&bytes);
    assert_eq!(readers.len(), 2);
    assert_eq!(readers[0].read(FieldType::UnsignedInt, 8), Some(0x0C));
    assert_eq!(readers[0].read(FieldType::UnsignedInt, 1), None);
}

#[test]
fn a_stream_that_ends_inside_a_field_is_refused_with_the_name_of_the_field() {
    let error = try_parse_h264(&vec![0x00u8, 0x00, 0x00, 0x01, 0x67]).unwrap_err();
    assert_eq!(error.kind, ErrorKind::Unreadable);
    assert_eq!(error.name, "profile_idc");
    let error = try_parse_h264(&vec![0x00u8, 0x00, 0x00, 0x01, 0x67, 0x42, 0x00, 0x1E]).unwrap_err();
    assert_eq!(error.kind, ErrorKind::Unreadable);
    assert_eq!(error.name, "seq_paramter_set_id");
}

#[test]
fn a_parameter_set_without_closing_bits_is_refused() {
    // The picture parameter set ends at a byte boundary: more is looked for
    // and not found.
    let error = try_parse_h264(&vec![0x00u8, 0x00, 0x00, 0x01, 0x68, 0xCE, 0x3C]).unwrap_err();
    assert_eq!(error.kind, ErrorKind::Unreadable);
    assert_eq!(error.name, "transform_8x8_mode_flag");
}

#[test]
fn a_picture_parameter_set_with_more_data_reads_its_extension() {
    // As the minimal picture parameter set, then transform_8x8_mode_flag 1,
    // pic_scaling_matrix_present_flag 0, second_chroma_qp_index_offset 0
    // and the closing bits.
    let bytes = vec![0x00u8, 0x00, 0x00, 0x01, 0x68, 0xCE, 0x3C, 0xB0];
    let text = text_of(&parse_h264(&bytes));
    assert!(text.contains("\t\ttransform_8x8_mode_flag: 1\n\t\tpic_scaling_matrix_present_flag: 0\n\t\tsecond_chroma_qp_index_offset: 0\n\t\ttrailing_bits: \"10\"\n"));
    assert_eq!(serialize_h264(text), bytes);
}

#[test]
fn slice_types_go_by_their_remainder() {
    assert_eq!(int_to_slice_type(0), SliceType::P);
    assert_eq!(int_to_slice_type(1), SliceType::B);
    assert_eq!(int_to_slice_type(2), SliceType::I);
    assert_eq!(int_to_slice_type(3), SliceType::SP);
    assert_eq!(int_to_slice_type(4), SliceType::SI);
    assert_eq!(int_to_slice_type(7), SliceType::I);
    assert_eq!(int_to_slice_type(9), SliceType::SI);
    assert_eq!(int_to_slice_type(-1), SliceType::SI);
    assert_eq!(int_to_slice_type(-5), SliceType::P);
}

#[test]
fn the_state_starts_with_chroma_format_one() {
    let state = H264State::new();
    assert_eq!(state.chroma_format_idc, 1);
    assert!(!state.separate_color_plane_flag);
    assert!(!state.frame_mbs_only_flag);
    assert_eq!(state.pic_order_cnt_type, 0);
    assert_eq!(state.log2_max_frame_num_minus4, 0);
    assert_eq!(state.num_ref_idx_l0_active_minus1, 0);
    assert_eq!(state.slice_group_change_rate_minus1, 0);
}

#[test]
fn the_try_functions_hand_back_what_the_others_do() {
    let bytes = stream(&[&SPS, &PPS, &IDR]);
    let trees = try_parse_h264(&bytes).unwrap();
    assert_eq!(text_of(&trees), text_of(&parse_h264(&bytes)));
    let text = text_of(&trees);
    assert_eq!(try_serialize_h264(text.clone()).unwrap(), serialize_h264(text));
}

