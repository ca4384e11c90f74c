use h264_syntax::{
    serialize_h264, syntax_elements_from_string, try_serialize_h264,
    try_syntax_elements_from_string, ErrorKind, SyntaxElement, SyntaxField, SyntaxNode,
    SyntaxPayload,
};
use std::collections::VecDeque;

fn rows_of(text: &str) -> VecDeque<String> {
    text.split('\n').map(|row| row.to_string()).collect()
}

fn text_of(elements: &VecDeque<SyntaxElement>) -> String {
    let mut text = String::new();
    for element in elements {
        text = format!("{}{}", text, element.to_string());
    }
    text
}

fn field(name: &str, val: i32) -> SyntaxElement {
    SyntaxElement::Field(SyntaxField { name: name.to_string(), val })
}

fn payload(name: &str, data: Vec<u8>) -> SyntaxElement {
    SyntaxElement::Payload(SyntaxPayload { name: name.to_string(), data })
}

fn node(name: &str, children: Vec<SyntaxElement>) -> SyntaxElement {
    SyntaxElement::Node(SyntaxNode { name: name.to_string(), children: children.into() })
}

#[test]
fn a_field_prints_as_name_and_decimal_value() {
    assert_eq!(field("level_idc", 30).to_string(), "level_idc: 30\n");
    assert_eq!(field("delta", -12).to_string(), "delta: -12\n");
    assert_eq!(field("zero", 0).to_string(), "zero: 0\n");
    assert_eq!(field("most", i32::MAX).to_string(), "most: 2147483647\n");
    assert_eq!(field("least", i32::MIN).to_string(), "least: -2147483648\n");
}

#[test]
fn a_payload_prints_as_upper_case_hex_bytes() {
    assert_eq!(payload("data", vec![0xFF, 0x00, 0x0A, 0xB7]).to_string(), "data: \"FF 00 0A B7\"\n");
    assert_eq!(payload("one", vec![0x5C]).to_string(), "one: \"5C\"\n");
    assert_eq!(payload("none", vec![]).to_string(), "none: \"\"\n");
}

#[test]
fn a_node_prints_its_children_one_tab_deeper() {
    let tree = node(
        "outer",
        vec![
            field("a", 1),
            node("inner", vec![payload("p", vec![1, 2]), node("empty", vec![])]),
            field("b", -2),
        ],
    );
    assert_eq!(
        tree.to_string(),
        "outer {\n\ta: 1\n\tinner {\n\t\tp: \"01 02\"\n\t\tempty {\n\t\t}\n\t}\n\tb: -2\n}\n"
    );
}

#[test]
fn the_text_of_a_tree_reads_back_as_the_tree() {
    let tree = node(
        "outer",
        vec![
            field("a", 1),
            node("inner", vec![payload("p", vec![1, 2]), node("empty", vec![])]),
            payload("q", vec![]),
            field("b", -2),
        ],
    );
    let text = tree.to_string();
    let mut rows = rows_of(&text);
    let elements = syntax_elements_from_string(&mut rows);
    assert_eq!(rows.len(), 0);
    assert_eq!(elements.len(), 1);
    assert_eq!(text_of(&elements), text);
}

#[test]
fn rows_are_read_in_their_order() {
    let mut rows = rows_of("b: 2\na: 1\nn {\nz: 26\ny: \"19\"\n}\nc: 3");
    let elements = syntax_elements_from_string(&mut rows);
    assert_eq!(text_of(&elements), "b: 2\na: 1\nn {\n\tz: 26\n\ty: \"19\"\n}\nc: 3\n");
}

#[test]
fn white_space_around_rows_and_blank_rows_change_nothing() {
    let plain = "n {\na: 1\nm {\np: \"0A\"\n}\n}\nb: 2\n";
    let mut rows = rows_of(plain);
    let expected = text_of(&syntax_elements_from_string(&mut rows));
    assert_eq!(expected, "n {\n\ta: 1\n\tm {\n\t\tp: \"0A\"\n\t}\n}\nb: 2\n");
    let spaced = "\n   n {\n\t\t\ta: 1   \n\n \t m {\r\n        p: \"0A\"\t\n\t}\n\u{a0}\n  }  \n\u{2003}b: 2\u{3000}\n\n\n";
    let mut rows = rows_of(spaced);
    assert_eq!(text_of(&syntax_elements_from_string(&mut rows)), expected);
}

#[test]
fn rows_without_a_colon_are_passed_over() {
    let mut rows = rows_of("hello\na: 1\n{\nworld }\n");
    let elements = syntax_elements_from_string(&mut rows);
    assert_eq!(text_of(&elements), "a: 1\n");
}

#[test]
fn reading_stops_behind_the_closing_row_that_has_no_node() {
    let mut rows = rows_of("a: 1\n}\nb: 2\nc: 3");
    let elements = syntax_elements_from_string(&mut rows);
    assert_eq!(text_of(&elements), "a: 1\n");
    assert_eq!(rows, rows_of("b: 2\nc: 3"));
    let elements = syntax_elements_from_string(&mut rows);
    assert_eq!(text_of(&elements), "b: 2\nc: 3\n");
    assert_eq!(rows.len(), 0);
}

#[test]
fn nodes_that_have_not_ended_end_with_the_text() {
    let mut rows = rows_of("n {\nm {\na: 1");
    let elements = syntax_elements_from_string(&mut rows);
    assert_eq!(text_of(&elements), "n {\n\tm {\n\t\ta: 1\n\t}\n}\n");
}

#[test]
fn a_node_row_loses_every_blank_and_brace_pair() {
    let mut rows = rows_of("a { b {\n}");
    let elements = syntax_elements_from_string(&mut rows);
    assert_eq!(text_of(&elements), "a b {\n}\n");
}

#[test]
fn numbers_may_have_a_sign_and_leading_zeros() {
    let mut rows = rows_of("a: +7\nb: -0\nc: 007\nd: -2147483648\ne: 2147483647");
    let elements = syntax_elements_from_string(&mut rows);
    assert_eq!(text_of(&elements), "a: 7\nb: 0\nc: 7\nd: -2147483648\ne: 2147483647\n");
}

#[test]
fn hex_tokens_may_be_short_or_in_lower_case() {
    let mut rows = rows_of("p: \"f 0a +B 00ff\"");
    let elements = syntax_elements_from_string(&mut rows);
    assert_eq!(text_of(&elements), "p: \"0F 0A 0B FF\"\n");
}

#[test]
fn a_field_that_is_no_number_is_refused() {
    for text in ["a: x", "a: ", "a:5", "a: 5 6", "a: 2147483648", "a: -2147483649", "a: 1.5", "a: --1", "a:", "a: 5\"x", "a: \"0A"] {
        let mut rows = rows_of(&format!("ok: 1\n  {}  \nlater: 2", text));
        let error = try_syntax_elements_from_string(&mut rows).unwrap_err();
        assert_eq!(error.kind, ErrorKind::BadNumber);
        assert_eq!(error.name, "a");
    }
}

#[test]
fn a_payload_with_a_token_that_is_no_byte_is_refused() {
    for text in ["p: \"ZZ\"", "p: \"100\"", "p: \"0A  0B\"", "p: \" 0A\"", "p: \"0A \"", "p: \"-1\"", "p: \"0x0A\"", "p: \"", "p: \"+\""] {
        let mut rows = rows_of(text);
        let error = try_syntax_elements_from_string(&mut rows).unwrap_err();
        assert_eq!(error.kind, ErrorKind::BadHex);
        assert_eq!(error.name, "p");
    }
}

#[test]
fn a_text_is_refused_where_an_element_at_the_top_is_no_node() {
    let error = try_serialize_h264("a: 5\n".to_string()).unwrap_err();
    assert_eq!(error.kind, ErrorKind::NotANode);
    assert_eq!(error.name, "a");
    let error = try_serialize_h264("p: \"0A\"\n".to_string()).unwrap_err();
    assert_eq!(error.kind, ErrorKind::NotANode);
    assert_eq!(error.name, "p");
    let error = try_serialize_h264("a: x\n".to_string()).unwrap_err();
    assert_eq!(error.kind, ErrorKind::BadNumber);
}

#[test]
fn an_empty_text_encodes_to_nothing() {
    assert_eq!(serialize_h264(String::new()), Vec::<u8>::new());
    assert_eq!(serialize_h264("\n\n  \n".to_string()), Vec::<u8>::new());
}

#[test]
fn a_tree_that_lacks_a_child_is_refused() {
    let error = try_serialize_h264("nalu {\n}\n".to_string()).unwrap_err();
    assert_eq!(error.kind, ErrorKind::Missing);
    assert_eq!(error.name, "forbidden_zero_bit");
    assert_eq!(error.found, "");
    let text = "nalu {\nforbidden_zero_bit: 0\nnal_ref_idc: 0\nnal_unit_type: 12\n}\n";
    let error = try_serialize_h264(text.to_string()).unwrap_err();
    assert_eq!(error.kind, ErrorKind::Missing);
    assert_eq!(error.name, "filler_nalu");
    let text = "nalu {\nforbidden_zero_bit: 0\nnal_ref_idc: 0\nnal_unit_type: 12\nfiller_nalu {\n}\n}\n";
    let error = try_serialize_h264(text.to_string()).unwrap_err();
    assert_eq!(error.kind, ErrorKind::Missing);
    assert_eq!(error.name, "filler_data");
}

#[test]
fn a_tree_with_a_child_of_another_shape_is_refused() {
    let error = try_serialize_h264("nalu {\nforbidden_zero_bit {\n}\n}\n".to_string()).unwrap_err();
    assert_eq!(error.kind, ErrorKind::WrongShape);
    assert_eq!(error.name, "forbidden_zero_bit");
    let text = "nalu {\nforbidden_zero_bit: 0\nnal_ref_idc: 0\nnal_unit_type: 12\nfiller_nalu: 1\n}\n";
    let error = try_serialize_h264(text.to_string()).unwrap_err();
    assert_eq!(error.kind, ErrorKind::WrongShape);
    assert_eq!(error.name, "filler_nalu");
    let text = "nalu {\nforbidden_zero_bit: 0\nnal_ref_idc: 0\nnal_unit_type: 12\nfiller_nalu {\nfiller_data: 3\n}\n}\n";
    let error = try_serialize_h264(text.to_string()).unwrap_err();
    assert_eq!(error.kind, ErrorKind::WrongShape);
    assert_eq!(error.name, "filler_data");
}

#[test]
fn a_tree_with_a_child_of_another_name_is_refused() {
    let error = try_serialize_h264("nalu {\nfoo: 0\n}\n".to_string()).unwrap_err();
    assert_eq!(error.kind, ErrorKind::WrongName);
    assert_eq!(error.name, "forbidden_zero_bit");
    assert_eq!(error.found, "foo");
    let text = "nalu {\nforbidden_zero_bit: 0\nnal_ref_idc: 0\nnal_unit_type: 12\nunparsed_nalu {\nfiller_data: \"\"\n}\n}\n";
    let error = try_serialize_h264(text.to_string()).unwrap_err();
    assert_eq!(error.kind, ErrorKind::WrongName);
    assert_eq!(error.name, "filler_nalu");
    assert_eq!(error.found, "unparsed_nalu");
    let text = "nalu {\nforbidden_zero_bit: 0\nnal_ref_idc: 0\nnal_unit_type: 12\nfiller_nalu {\nslice_payload: \"\"\n}\n}\n";
    let error = try_serialize_h264(text.to_string()).unwrap_err();
    assert_eq!(error.kind, ErrorKind::WrongName);
    assert_eq!(error.name, "filler_data");
    assert_eq!(error.found, "slice_payload");
}

#[test]
fn a_value_without_a_code_is_refused() {
    let text = "nalu {\nforbidden_zero_bit: 0\nnal_ref_idc: 3\nnal_unit_type: 8\npps {\npic_parameter_set_id: -1\n}\n}\n";
    let error = try_serialize_h264(text.to_string()).unwrap_err();
    assert_eq!(error.kind, ErrorKind::Unwritable);
    assert_eq!(error.name, "pic_parameter_set_id");
}

#[test]
fn a_width_above_64_bits_is_refused() {
    let sps = "nalu {\nforbidden_zero_bit: 0\nnal_ref_idc: 3\nnal_unit_type: 7\nsps {\nprofile_idc: 66\nconstraint_set0_flag: 0\nconstraint_set1_flag: 0\nconstraint_set2_flag: 0\nconstraint_set3_flag: 0\nconstraint_set4_flag: 0\nconstraint_set5_flag: 0\nreserved_zero_2bits: 0\nlevel_idc: 30\nseq_paramter_set_id: 0\nlog2_max_frame_num_minus4: 61\npic_order_cnt_type: 2\nmax_num_ref_frames: 1\ngaps_in_frame_num_value_allowed_flag: 0\npic_width_in_mbs_minus1: 19\npic_height_in_mbs_minus1: 14\nframe_mbs_only_flag: 1\ndirect_8x8_inference_flag: 1\nframe_cropping_flag: 0\nvui_parameters_present_flag: 0\ntrailing_bits: \"08\"\n}\n}\n";
    let slice = "nalu {\nforbidden_zero_bit: 0\nnal_ref_idc: 0\nnal_unit_type: 1\nslice {\nslice_header {\nfirst_mb_in_slice: 0\nslice_type: 7\npic_parameter_set_id: 0\nframe_num: 0\n}\n}\n}\n";
    let error = try_serialize_h264(format!("{}{}", sps, slice)).unwrap_err();
    assert_eq!(error.kind, ErrorKind::BadWidth);
    assert_eq!(error.name, "frame_num");
}

#[test]
fn a_payload_behind_bits_fills_the_byte_first() {
    // The header of the unit is one byte; the picture parameter set id 0
    // takes one bit, so that the payload lies across a byte.
    let text = "nalu {\nforbidden_zero_bit: 0\nnal_ref_idc: 0\nnal_unit_type: 12\nfiller_nalu {\nfiller_data: \"12 34\"\n}\n}\n";
    assert_eq!(
        serialize_h264(text.to_string()),
        vec![0x00u8, 0x00, 0x00, 0x01, 0x0C, 0x12, 0x34]
    );
}

#[test]
fn the_try_function_reads_rows_as_the_other_does() {
    let mut rows = rows_of("n {\na: 1\n}\n}\nb: 2");
    let mut same = rows.clone();
    let elements = try_syntax_elements_from_string(&mut rows).unwrap();
    assert_eq!(text_of(&elements), "n {\n\ta: 1\n}\n");
    assert_eq!(text_of(&syntax_elements_from_string(&mut same)), "n {\n\ta: 1\n}\n");
    assert_eq!(rows, same);
    assert_eq!(rows, rows_of("b: 2"));
}

