use h264_syntax::{BitstreamReader, BitstreamWriter, FieldType};

fn written(field_type: FieldType, n: u8, val: i32) -> Vec<u8> {
    let mut writer = BitstreamWriter::new();
    writer.write(field_type, n, val);
    writer.into_bytes()
}

fn read_back(field_type: FieldType, n: u8, val: i32) -> Option<i32> {
    let bytes = written(field_type, n, val);
    let mut reader = BitstreamReader::new(&bytes);
    reader.read(field_type, n)
}

#[test]
fn ue_zero_is_a_single_one_bit() {
    let bytes = [0b1000_0000u8];
    let mut reader = BitstreamReader::new(&bytes);
    assert_eq!(reader.read(FieldType::UnsignedExpGolomb, 0), Some(0));
    assert_eq!(written(FieldType::UnsignedExpGolomb, 0, 0), vec![0b1000_0000u8]);
}

#[test]
fn ue_one_is_zero_one_zero() {
    let bytes = [0b0100_0000u8, 0b0000_0000];
    let mut reader = BitstreamReader::new(&bytes);
    assert_eq!(reader.read(FieldType::UnsignedExpGolomb, 0), Some(1));
    assert_eq!(written(FieldType::UnsignedExpGolomb, 0, 1), vec![0b0100_0000u8]);
}

#[test]
fn ue_codes_have_the_expected_bits() {
    assert_eq!(written(FieldType::UnsignedExpGolomb, 0, 2), vec![0b0110_0000u8]);
    assert_eq!(written(FieldType::UnsignedExpGolomb, 0, 3), vec![0b0010_0000u8]);
    assert_eq!(written(FieldType::UnsignedExpGolomb, 0, 19), vec![0b0000_1010u8, 0b0000_0000]);
    assert_eq!(written(FieldType::UnsignedExpGolomb, 0, 14), vec![0b0001_1110u8]);
}

#[test]
fn se_maps_code_numbers_to_signed_values() {
    let expected = [0, 1, -1, 2, -2];
    for code in 0..5 {
        let bytes = written(FieldType::UnsignedExpGolomb, 0, code);
        let mut reader = BitstreamReader::new(&bytes);
        assert_eq!(
            reader.read(FieldType::SignedExpGolomb, 0),
            Some(expected[code as usize])
        );
    }
}

#[test]
fn se_codes_have_the_expected_bits() {
    assert_eq!(written(FieldType::SignedExpGolomb, 0, 0), vec![0b1000_0000u8]);
    assert_eq!(written(FieldType::SignedExpGolomb, 0, 1), vec![0b0100_0000u8]);
    assert_eq!(written(FieldType::SignedExpGolomb, 0, -1), vec![0b0110_0000u8]);
    assert_eq!(written(FieldType::SignedExpGolomb, 0, -2), vec![0b0010_1000u8]);
}

#[test]
fn ue_round_trips_at_the_ends_of_its_range() {
    for val in [0, 1, 2, 254, 255, 256, 65535, 0x3fff_ffff, 0x7fff_fffe, 0x7fff_ffff] {
        assert_eq!(read_back(FieldType::UnsignedExpGolomb, 0, val), Some(val));
    }
}

#[test]
fn se_round_trips_at_the_ends_of_its_range() {
    for val in [0, 1, -1, 1000, -1000, 0x4000_0000, -0x3fff_ffff] {
        assert_eq!(read_back(FieldType::SignedExpGolomb, 0, val), Some(val));
    }
}

#[test]
fn unsigned_int_round_trips_within_its_width() {
    for n in 1u8..=31 {
        let top = ((1u64 << n) - 1) as i32;
        assert_eq!(read_back(FieldType::UnsignedInt, n, 0), Some(0));
        assert_eq!(read_back(FieldType::UnsignedInt, n, top), Some(top));
    }
    assert_eq!(read_back(FieldType::UnsignedInt, 0, 0), Some(0));
    assert_eq!(read_back(FieldType::UnsignedInt, 32, -5), Some(-5));
    assert_eq!(read_back(FieldType::UnsignedInt, 64, i32::MIN), Some(i32::MIN));
    assert_eq!(read_back(FieldType::UnsignedInt, 64, i32::MAX), Some(i32::MAX));
}

#[test]
fn signed_int_round_trips_within_its_width() {
    assert_eq!(read_back(FieldType::SignedInt, 4, -8), Some(-8));
    assert_eq!(read_back(FieldType::SignedInt, 4, 7), Some(7));
    assert_eq!(read_back(FieldType::SignedInt, 1, -1), Some(-1));
    assert_eq!(read_back(FieldType::SignedInt, 1, 0), Some(0));
    assert_eq!(read_back(FieldType::SignedInt, 32, i32::MIN), Some(i32::MIN));
    assert_eq!(read_back(FieldType::SignedInt, 40, -3), Some(-3));
}

#[test]
fn signed_int_reads_twos_complement() {
    let bytes = [0b1110_0000u8];
    let mut reader = BitstreamReader::new(&bytes);
    assert_eq!(reader.read(FieldType::SignedInt, 4), Some(-2));
    let bytes = [0b0110_0000u8];
    let mut reader = BitstreamReader::new(&bytes);
    assert_eq!(reader.read(FieldType::SignedInt, 4), Some(6));
}

#[test]
fn boolean_reads_one_bit_and_writes_whether_not_zero() {
    let bytes = [0b1010_0000u8];
    let mut reader = BitstreamReader::new(&bytes);
    assert_eq!(reader.read(FieldType::Boolean, 1), Some(1));
    assert_eq!(reader.read(FieldType::Boolean, 1), Some(0));
    assert_eq!(reader.read(FieldType::Boolean, 1), Some(1));
    assert_eq!(written(FieldType::Boolean, 1, 7), vec![0b1000_0000u8]);
    assert_eq!(written(FieldType::Boolean, 1, 0), vec![0b0000_0000u8]);
}

#[test]
fn fixed_width_fields_write_their_low_bits() {
    assert_eq!(written(FieldType::UnsignedInt, 8, 0x1E), vec![0x1Eu8]);
    assert_eq!(written(FieldType::UnsignedInt, 4, 0xAB), vec![0xB0u8]);
    assert_eq!(written(FieldType::SignedInt, 4, -2), vec![0xE0u8]);
    assert_eq!(written(FieldType::UnsignedInt, 12, 0xABC), vec![0xABu8, 0xC0]);
    assert_eq!(
        written(FieldType::UnsignedInt, 40, -1),
        vec![0xFFu8, 0xFF, 0xFF, 0xFF, 0xFF]
    );
    assert_eq!(
        written(FieldType::UnsignedInt, 40, 1),
        vec![0x00u8, 0x00, 0x00, 0x00, 0x01]
    );
}

#[test]
fn wide_reads_keep_the_low_32_bits() {
    let bytes = [0x12u8, 0x34, 0x56, 0x78, 0x9A];
    let mut reader = BitstreamReader::new(&bytes);
    assert_eq!(reader.read(FieldType::UnsignedInt, 40), Some(0x3456_789A));
}

#[test]
fn a_read_past_the_end_gives_none_and_leaves_the_reader() {
    let bytes = [0xABu8];
    let mut reader = BitstreamReader::new(&bytes);
    assert_eq!(reader.read(FieldType::UnsignedInt, 4), Some(0xA));
    assert_eq!(reader.read(FieldType::UnsignedInt, 5), None);
    assert_eq!(reader.read(FieldType::UnsignedInt, 4), Some(0xB));
    assert_eq!(reader.read(FieldType::Boolean, 1), None);
    assert_eq!(reader.read(FieldType::UnsignedInt, 0), Some(0));
}

#[test]
fn an_exp_golomb_code_that_ends_early_gives_none() {
    let bytes = [0b0001_0000u8];
    let mut reader = BitstreamReader::new(&bytes);
    assert_eq!(reader.read(FieldType::UnsignedExpGolomb, 0), Some(7));
    let bytes = [0b0000_0001u8];
    let mut reader = BitstreamReader::new(&bytes);
    assert_eq!(reader.read(FieldType::UnsignedExpGolomb, 0), None);
    assert_eq!(reader.read(FieldType::UnsignedInt, 8), Some(1));
    let bytes = [0u8, 0];
    let mut reader = BitstreamReader::new(&bytes);
    assert_eq!(reader.read(FieldType::SignedExpGolomb, 0), None);
}

#[test]
fn an_exp_golomb_code_above_the_32_bit_range_gives_none() {
    // 31 zero bits, a one bit and 31 bits that spell 1: the code number 2^31.
    let bytes = [0u8, 0, 0, 1, 0, 0, 0, 2];
    let mut reader = BitstreamReader::new(&bytes);
    assert_eq!(reader.read(FieldType::UnsignedExpGolomb, 0), None);
    assert_eq!(reader.read(FieldType::UnsignedInt, 32), Some(1));
    // 31 zero bits, a one bit and 31 zero bits: the code number 2^31 - 1.
    let bytes = [0u8, 0, 0, 1, 0, 0, 0, 0];
    let mut reader = BitstreamReader::new(&bytes);
    assert_eq!(reader.read(FieldType::UnsignedExpGolomb, 0), Some(i32::MAX));
    // 32 zero bits.
    let bytes = [0u8, 0, 0, 0, 0xFF, 0xFF, 0xFF, 0xFF, 0xFF];
    let mut reader = BitstreamReader::new(&bytes);
    assert_eq!(reader.read(FieldType::UnsignedExpGolomb, 0), None);
}

#[test]
fn bits_and_peeks_follow_the_cursor() {
    let bytes = [0b0100_0001u8, 0b1000_0000];
    let mut reader = BitstreamReader::new(&bytes);
    assert_eq!(reader.peek_bit(), Some(0));
    assert_eq!(reader.read_bit(), Some(0));
    assert_eq!(reader.peek_bit(), Some(1));
    assert_eq!(reader.read_bits(6, 0), Some(0b10_0000));
    assert_eq!(reader.read_bits(2, -1), Some(-1));
    assert_eq!(reader.read_bits(7, 1), Some(0b1000_0000));
    assert_eq!(reader.peek_bit(), None);
    assert_eq!(reader.read_bit(), None);
}

#[test]
fn the_writer_fills_the_last_byte_with_zero_bits() {
    let mut writer = BitstreamWriter::new();
    assert_eq!(writer.bytes().len(), 0);
    writer.write_bit(true);
    assert_eq!(writer.bytes(), &vec![0x80u8]);
    writer.write(FieldType::UnsignedInt, 8, 0xFF);
    assert_eq!(writer.bytes(), &vec![0xFFu8, 0x80]);
    writer.write(FieldType::UnsignedInt, 7, 0);
    writer.write(FieldType::UnsignedExpGolomb, 0, 0);
    assert_eq!(writer.into_bytes(), vec![0xFFu8, 0x80, 0x80]);
}

#[test]
fn a_negative_unsigned_exp_golomb_value_is_written_as_its_32_bit_pattern() {
    // The pattern of -2 + 1 has 32 bits: 31 zero bits and then 32 one bits.
    assert_eq!(
        written(FieldType::UnsignedExpGolomb, 0, -2),
        vec![0x00u8, 0x00, 0x00, 0x01, 0xFF, 0xFF, 0xFF, 0xFE]
    );
}

#[test]
fn more_to_read_is_false_where_a_single_one_bit_is_left_in_the_last_byte() {
    let bytes = [0x80u8];
    assert!(!BitstreamReader::new(&bytes).more_to_read());
    let bytes = [0xC0u8];
    assert!(BitstreamReader::new(&bytes).more_to_read());
    let bytes = [0x00u8];
    assert!(BitstreamReader::new(&bytes).more_to_read());
    let bytes = [0x40u8];
    assert!(!BitstreamReader::new(&bytes).more_to_read());
    let bytes = [0xB8u8];
    let mut reader = BitstreamReader::new(&bytes);
    assert!(reader.more_to_read());
    assert_eq!(reader.read(FieldType::UnsignedInt, 4), Some(0xB));
    assert!(!reader.more_to_read());
    assert_eq!(reader.read(FieldType::Boolean, 1), Some(1));
    assert!(reader.more_to_read());
}

#[test]
fn more_to_read_is_true_before_the_last_byte_and_at_the_end() {
    let bytes = [0x80u8, 0x80];
    let mut reader = BitstreamReader::new(&bytes);
    assert!(reader.more_to_read());
    assert_eq!(reader.read(FieldType::UnsignedInt, 8), Some(0x80));
    assert!(!reader.more_to_read());
    assert_eq!(reader.read(FieldType::UnsignedInt, 8), Some(0x80));
    assert!(reader.more_to_read());
    let bytes: [u8; 0] = [];
    assert!(BitstreamReader::new(&bytes).more_to_read());
}

#[test]
fn a_payload_across_a_byte_is_restored_bit_for_bit() {
    let bytes = [0b1011_0110u8, 0xAA, 0x01];
    let mut reader = BitstreamReader::new(&bytes);
    assert_eq!(reader.read(FieldType::UnsignedInt, 3), Some(0b101));
    let data = reader.read_payload();
    assert_eq!(data, vec![0b1_0110u8, 0xAA, 0x01]);
    assert_eq!(reader.read_bit(), None);
    let mut writer = BitstreamWriter::new();
    writer.write(FieldType::UnsignedInt, 3, 0b101);
    writer.write_payload(&data);
    assert_eq!(writer.into_bytes(), bytes.to_vec());
}

#[test]
fn a_payload_at_a_byte_boundary_is_the_bytes_that_are_left() {
    let bytes = [0x12u8, 0x34, 0x56];
    let mut reader = BitstreamReader::new(&bytes);
    assert_eq!(reader.read(FieldType::UnsignedInt, 8), Some(0x12));
    assert_eq!(reader.read_payload(), vec![0x34u8, 0x56]);
    assert_eq!(reader.read_payload(), Vec::<u8>::new());
    let mut writer = BitstreamWriter::new();
    writer.write_payload(&vec![0x34u8, 0x56]);
    writer.write_bit(true);
    writer.write_payload(&Vec::new());
    assert_eq!(writer.into_bytes(), vec![0x34u8, 0x56, 0x80]);
}
