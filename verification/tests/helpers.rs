use h264_syntax::numeral::{digit_str, indexed_name, indexed_name2, push_decimal, push_digits};
use h264_syntax::state::ceil_log2_of;
use h264_syntax::text::{
    chars_of, classify_row, digit_value, find_char, is_space_char, parse_bytes, parse_number,
    split_lines, trim_bounds, ParsedRow,
};
use h264_syntax::writer::can_encode;
use h264_syntax::{parse_h264, serialize_h264, ErrorKind, FieldType, SyntaxElement, SyntaxError};

#[test]
fn ceil_log2_is_the_least_power_that_reaches() {
    assert_eq!(ceil_log2_of(-7), 0);
    assert_eq!(ceil_log2_of(0), 0);
    assert_eq!(ceil_log2_of(1), 0);
    assert_eq!(ceil_log2_of(2), 1);
    assert_eq!(ceil_log2_of(3), 2);
    assert_eq!(ceil_log2_of(4), 2);
    assert_eq!(ceil_log2_of(5), 3);
    assert_eq!(ceil_log2_of(8), 3);
    assert_eq!(ceil_log2_of(9), 4);
    assert_eq!(ceil_log2_of(0x8000_0000), 31);
    assert_eq!(ceil_log2_of(0x8000_0001), 32);
    assert_eq!(ceil_log2_of(i64::MAX), 63);
}

#[test]
fn names_with_an_index_have_it_in_brackets() {
    assert_eq!(indexed_name("offset_for_ref_frame", 0), "offset_for_ref_frame[0]");
    assert_eq!(indexed_name("top_left", 12), "top_left[12]");
    assert_eq!(indexed_name("x", -3), "x[-3]");
    assert_eq!(indexed_name2("chroma_weight_l0", 31, 1), "chroma_weight_l0[31][1]");
}

#[test]
fn numbers_are_written_in_decimal() {
    let mut text = String::from("n=");
    push_decimal(&mut text, 0);
    text.push(' ');
    push_decimal(&mut text, -45);
    text.push(' ');
    push_decimal(&mut text, i64::MIN);
    text.push(' ');
    push_digits(&mut text, 9_876_543_210);
    assert_eq!(text, "n=0 -45 -9223372036854775808 9876543210");
    assert_eq!(digit_str(0), "0");
    assert_eq!(digit_str(7), "7");
}

#[test]
fn white_space_is_what_unicode_calls_so() {
    for c in [' ', '\t', '\n', '\r', '\u{b}', '\u{c}', '\u{85}', '\u{a0}', '\u{2028}', '\u{3000}'] {
        assert!(is_space_char(c));
        assert!(c.is_whitespace());
    }
    for c in ['a', '0', ':', '{', '"', '\u{200b}', '\u{feff}', '\u{8}'] {
        assert!(!is_space_char(c));
        assert!(!c.is_whitespace());
    }
    for code in 0..0x11_0000u32 {
        if let Some(c) = char::from_u32(code) {
            assert_eq!(is_space_char(c), c.is_whitespace());
        }
    }
}

#[test]
fn trimming_finds_the_bounds_of_a_row() {
    assert_eq!(trim_bounds(&chars_of("  ab c \t")), (2, 6));
    assert_eq!(trim_bounds(&chars_of("abc")), (0, 3));
    assert_eq!(trim_bounds(&chars_of(" \t ")), (3, 3));
    assert_eq!(trim_bounds(&chars_of("")), (0, 0));
    assert_eq!(chars_of("a\u{e9}b"), vec!['a', '\u{e9}', 'b']);
}

#[test]
fn finding_a_character_gives_its_first_place_or_the_end() {
    let row = chars_of("a:b:c");
    assert_eq!(find_char(&row, 0, 5, ':'), 1);
    assert_eq!(find_char(&row, 2, 5, ':'), 3);
    assert_eq!(find_char(&row, 4, 5, ':'), 5);
    assert_eq!(find_char(&row, 2, 2, ':'), 2);
}

#[test]
fn digits_have_their_values() {
    assert_eq!(digit_value('0', 10), Some(0));
    assert_eq!(digit_value('9', 10), Some(9));
    assert_eq!(digit_value('a', 10), None);
    assert_eq!(digit_value('a', 16), Some(10));
    assert_eq!(digit_value('F', 16), Some(15));
    assert_eq!(digit_value('g', 16), None);
    assert_eq!(digit_value('/', 16), None);
    assert_eq!(digit_value(':', 10), None);
}

#[test]
fn numbers_are_read_within_their_limit() {
    let text = chars_of("x-0128+7f");
    assert_eq!(parse_number(&text, 1, 6, 10, true, 200), Some(-128));
    assert_eq!(parse_number(&text, 1, 6, 10, true, 127), None);
    assert_eq!(parse_number(&text, 1, 6, 10, false, 200), None);
    assert_eq!(parse_number(&text, 2, 6, 10, false, 200), Some(128));
    assert_eq!(parse_number(&text, 6, 9, 16, false, 255), Some(0x7f));
    assert_eq!(parse_number(&text, 6, 9, 10, false, 255), None);
    assert_eq!(parse_number(&text, 6, 7, 16, false, 255), None);
    assert_eq!(parse_number(&text, 3, 3, 10, true, 255), None);
    assert_eq!(parse_number(&text, 1, 2, 10, true, 255), None);
    let long = chars_of("000000000000000000000000000000000000017");
    assert_eq!(parse_number(&long, 0, long.len(), 10, true, 17), Some(17));
    let huge = chars_of("99999999999999999999999999999999999999");
    assert_eq!(parse_number(&huge, 0, huge.len(), 10, true, u32::MAX), None);
}

#[test]
fn bytes_are_read_from_hex_tokens() {
    let text = chars_of("[0A ff 7]");
    assert_eq!(parse_bytes(&text, 1, 8), Some(vec![0x0A, 0xFF, 0x07]));
    assert_eq!(parse_bytes(&text, 1, 3), Some(vec![0x0A]));
    assert_eq!(parse_bytes(&text, 1, 1), Some(vec![]));
    assert_eq!(parse_bytes(&text, 1, 4), None);
    assert_eq!(parse_bytes(&text, 0, 3), None);
}

fn field_of(row: ParsedRow) -> (String, i32) {
    match row {
        ParsedRow::Leaf(SyntaxElement::Field(field)) => (field.name, field.val),
        _ => panic!("no field"),
    }
}

fn payload_of(row: ParsedRow) -> (String, Vec<u8>) {
    match row {
        ParsedRow::Leaf(SyntaxElement::Payload(payload)) => (payload.name, payload.data),
        _ => panic!("no payload"),
    }
}

fn fault_of(row: ParsedRow) -> SyntaxError {
    match row {
        ParsedRow::Bad(error) => error,
        _ => panic!("no failure"),
    }
}

#[test]
fn rows_say_what_they_are() {
    assert!(matches!(classify_row("}"), ParsedRow::Close));
    assert!(matches!(classify_row("\t\t}  "), ParsedRow::Close));
    assert!(matches!(classify_row(""), ParsedRow::Skip));
    assert!(matches!(classify_row("   "), ParsedRow::Skip));
    assert!(matches!(classify_row("{"), ParsedRow::Skip));
    assert!(matches!(classify_row("} }"), ParsedRow::Skip));
    assert!(matches!(classify_row("sps{"), ParsedRow::Skip));
    match classify_row("\tsps {") {
        ParsedRow::Open(name) => assert_eq!(name, "sps"),
        _ => panic!("no node"),
    }
    match classify_row("a: 1 {") {
        ParsedRow::Open(name) => assert_eq!(name, "a: 1"),
        _ => panic!("no node"),
    }
    match classify_row(" {") {
        ParsedRow::Skip => {}
        _ => panic!("a brace alone begins no node"),
    }
    assert_eq!(field_of(classify_row("  level_idc: 30")), ("level_idc".to_string(), 30));
    assert_eq!(field_of(classify_row(": 5")), (String::new(), 5));
    assert_eq!(
        payload_of(classify_row("data: \"01 FE\"")),
        ("data".to_string(), vec![0x01, 0xFE])
    );
    assert_eq!(payload_of(classify_row("data: \"\"")), ("data".to_string(), vec![]));
    let fault = fault_of(classify_row("a: \"0A\": \"0B\""));
    assert_eq!(fault.kind, ErrorKind::BadHex);
    assert_eq!(fault.name, "a");
    let fault = fault_of(classify_row("a:b: -4"));
    assert_eq!(fault.kind, ErrorKind::BadNumber);
    assert_eq!(fault.name, "a");
    let fault = fault_of(classify_row("p: \"0G\""));
    assert_eq!(fault.kind, ErrorKind::BadHex);
    assert_eq!(fault.name, "p");
}

#[test]
fn a_text_splits_into_rows_at_its_newlines() {
    let rows: Vec<String> = split_lines("a\n\nb c\n").into_iter().collect();
    assert_eq!(rows, vec!["a", "", "b c", ""]);
    let rows: Vec<String> = split_lines("").into_iter().collect();
    assert_eq!(rows, vec![""]);
    let rows: Vec<String> = split_lines("\u{e9}t\u{e9}\nx\r\ny").into_iter().collect();
    assert_eq!(rows, vec!["\u{e9}t\u{e9}", "x\r", "y"]);
}

#[test]
fn values_have_a_code_or_not() {
    assert!(can_encode(FieldType::UnsignedExpGolomb, 0));
    assert!(can_encode(FieldType::UnsignedExpGolomb, i32::MAX));
    assert!(can_encode(FieldType::UnsignedExpGolomb, -2));
    assert!(!can_encode(FieldType::UnsignedExpGolomb, -1));
    assert!(can_encode(FieldType::SignedExpGolomb, 0x4000_0000));
    assert!(!can_encode(FieldType::SignedExpGolomb, 0x4000_0001));
    assert!(can_encode(FieldType::SignedExpGolomb, -0x3fff_ffff));
    assert!(!can_encode(FieldType::SignedExpGolomb, -0x4000_0000));
    assert!(can_encode(FieldType::Boolean, -1));
    assert!(can_encode(FieldType::UnsignedInt, -1));
    assert!(can_encode(FieldType::SignedInt, i32::MIN));
}

#[test]
fn slice_group_ids_take_as_many_bits_as_the_groups_need() {
    // Three slice groups need two bits for each id: the ids 2, 0, 1, 2 are
    // the bits 10 00 01 10.
    let text = "nalu {\nforbidden_zero_bit: 0\nnal_ref_idc: 3\nnal_unit_type: 8\npps {\n\
pic_parameter_set_id: 0\nseq_parameter_set_id: 0\nentropy_coding_mode_flag: 0\n\
bottom_field_pic_order_in_frame_present_flag: 0\nnum_slice_groups_minus1: 2\n\
slice_group_map_type: 6\npic_size_in_map_units_minus1: 3\nslice_group_id[0]: 2\n\
slice_group_id[1]: 0\nslice_group_id[2]: 1\nslice_group_id[3]: 2\n\
num_ref_idx_l0_default_active_minus1: 0\nnum_ref_idx_l1_default_active_minus1: 0\n\
weighted_pred_flag: 0\nweighted_bipred_idc: 0\npic_init_qp_minus26: 0\n\
pic_init_qs_minus26: 0\nchroma_qp_index_offset: 0\n\
deblocking_filter_control_present_flag: 0\nconstrained_intra_pred_flag: 0\n\
redundant_pic_cnt_present_flag: 0\ntrailing_bits: \"02\"\n}\n}\n";
    let bytes = serialize_h264(text.to_string());
    assert_eq!(
        bytes,
        vec![0x00u8, 0x00, 0x00, 0x01, 0x68, 0xC6, 0x72, 0x43, 0x63, 0x82]
    );
    let trees = parse_h264(&bytes);
    let decoded = trees[0].to_string();
    assert!(decoded.contains("\t\tslice_group_id[0]: 2\n\t\tslice_group_id[1]: 0\n"));
    assert!(decoded.contains("\t\tslice_group_id[3]: 2\n"));
    assert_eq!(serialize_h264(decoded), bytes);
}

#[test]
fn run_lengths_and_corners_of_slice_groups_go_there_and_back() {
    for groups in ["slice_group_map_type: 0\nrun_length_minus1[0]: 4\nrun_length_minus1[1]: 9\n",
        "slice_group_map_type: 2\ntop_left[0]: 1\nbottom_right[0]: 8\n",
        "slice_group_map_type: 1\n"]
    {
        let text = format!(
            "nalu {{\nforbidden_zero_bit: 0\nnal_ref_idc: 3\nnal_unit_type: 8\npps {{\n\
pic_parameter_set_id: 1\nseq_parameter_set_id: 0\nentropy_coding_mode_flag: 0\n\
bottom_field_pic_order_in_frame_present_flag: 0\nnum_slice_groups_minus1: 1\n{}\
num_ref_idx_l0_default_active_minus1: 0\nnum_ref_idx_l1_default_active_minus1: 0\n\
weighted_pred_flag: 0\nweighted_bipred_idc: 2\npic_init_qp_minus26: 0\n\
pic_init_qs_minus26: 0\nchroma_qp_index_offset: 0\n\
deblocking_filter_control_present_flag: 0\nconstrained_intra_pred_flag: 0\n\
redundant_pic_cnt_present_flag: 0\ntrailing_bits: \"01\"\n}}\n}}\n",
            groups
        );
        let bytes = serialize_h264(text);
        let trees = parse_h264(&bytes);
        let decoded = trees[0].to_string();
        for row in groups.split('\n') {
            assert!(decoded.contains(row));
        }
        assert_eq!(serialize_h264(decoded), bytes);
    }
}
