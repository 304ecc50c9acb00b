use mower_msg::msg::serialization::{
    append, BinaryDeserializer, BinarySerializeError, BinarySerializer, Countdown, ErrorKind,
};
use mower_msg::msg::wire::{push_le, value_le};

fn eof(need: usize, have: usize, pos: usize) -> BinarySerializeError {
    BinarySerializeError { kind: ErrorKind::UnexpectedEof { need, have, pos } }
}

#[test]
fn push_le_writes_least_significant_byte_first() {
    let mut out = vec![0xAA];
    push_le(&mut out, 0x0102_0304, 4);
    assert_eq!(out, vec![0xAA, 0x04, 0x03, 0x02, 0x01]);
    push_le(&mut out, 0x1234, 1);
    assert_eq!(out, vec![0xAA, 0x04, 0x03, 0x02, 0x01, 0x34]);
    push_le(&mut out, 7, 0);
    assert_eq!(out.len(), 6);
}

#[test]
fn value_le_reads_least_significant_byte_first() {
    assert_eq!(value_le(&[]), 0);
    assert_eq!(value_le(&[0x34, 0x12]), 0x1234);
    assert_eq!(value_le(&[0xFF; 16]), u128::MAX);
    assert_eq!(value_le(&[0, 0, 0, 0x80]), 0x8000_0000);
}

#[test]
fn append_keeps_what_was_there() {
    let mut out = vec![1, 2];
    append(&mut out, &[3, 4, 5]);
    assert_eq!(out, vec![1, 2, 3, 4, 5]);
    append(&mut out, &[]);
    assert_eq!(out, vec![1, 2, 3, 4, 5]);
}

#[test]
fn unsigned_integers_are_little_endian_and_width_exact() {
    let mut ser = BinarySerializer::new();
    ser.write_u8(0xAB);
    ser.write_u16(0x1234);
    ser.write_u32(1);
    ser.write_u64(0x0102_0304_0506_0708);
    ser.write_u128(u128::MAX);
    assert_eq!(ser.len(), 1 + 2 + 4 + 8 + 16);
    let bytes = ser.into_bytes();
    let mut expected = vec![0xAB, 0x34, 0x12, 1, 0, 0, 0, 8, 7, 6, 5, 4, 3, 2, 1];
    expected.extend_from_slice(&[0xFF; 16]);
    assert_eq!(bytes, expected);
}

#[test]
fn signed_integers_are_twos_complement() {
    let mut ser = BinarySerializer::new();
    ser.write_i8(-128);
    ser.write_i8(-1);
    ser.write_i8(127);
    ser.write_i16(-2);
    ser.write_i32(i32::MIN);
    ser.write_i64(-1);
    ser.write_i128(i128::MIN);
    ser.write_i128(-1);
    let bytes = ser.into_bytes();
    let mut expected = vec![0x80, 0xFF, 0x7F, 0xFE, 0xFF, 0, 0, 0, 0x80];
    expected.extend_from_slice(&[0xFF; 8]);
    expected.extend_from_slice(&[0; 15]);
    expected.push(0x80);
    expected.extend_from_slice(&[0xFF; 16]);
    assert_eq!(bytes, expected);
}

#[test]
fn integers_agree_with_the_standard_byte_order() {
    let mut ser = BinarySerializer::new();
    ser.write_u16(0xBEEF);
    ser.write_i16(-12345);
    ser.write_u32(0xDEAD_BEEF);
    ser.write_i32(-123_456_789);
    ser.write_u64(0x0123_4567_89AB_CDEF);
    ser.write_i64(i64::MIN + 5);
    ser.write_u128(0x0123_4567_89AB_CDEF_0011_2233_4455_6677);
    ser.write_i128(-170_141_183_460_469_231_731_687_303_715_884_105_000);
    let mut expected = Vec::new();
    expected.extend_from_slice(&0xBEEFu16.to_le_bytes());
    expected.extend_from_slice(&(-12345i16).to_le_bytes());
    expected.extend_from_slice(&0xDEAD_BEEFu32.to_le_bytes());
    expected.extend_from_slice(&(-123_456_789i32).to_le_bytes());
    expected.extend_from_slice(&0x0123_4567_89AB_CDEFu64.to_le_bytes());
    expected.extend_from_slice(&(i64::MIN + 5).to_le_bytes());
    expected.extend_from_slice(&0x0123_4567_89AB_CDEF_0011_2233_4455_6677u128.to_le_bytes());
    let wide: i128 = -170_141_183_460_469_231_731_687_303_715_884_105_000;
    expected.extend_from_slice(&wide.to_le_bytes());
    assert_eq!(ser.into_bytes(), expected);
}

#[test]
fn every_integer_width_round_trips_at_its_limits() {
    let mut ser = BinarySerializer::new();
    ser.write_u16(u16::MAX);
    ser.write_u32(u32::MAX);
    ser.write_u64(u64::MAX);
    ser.write_u128(0);
    ser.write_i8(i8::MIN);
    ser.write_i16(i16::MIN);
    ser.write_i16(i16::MAX);
    ser.write_i32(-1);
    ser.write_i64(i64::MAX);
    ser.write_i64(i64::MIN);
    ser.write_i128(i128::MAX);
    ser.write_i128(i128::MIN);
    ser.write_i128(-1);
    let bytes = ser.into_bytes();
    let mut de = BinaryDeserializer::new(&bytes);
    assert_eq!(de.read_u16(), Ok(u16::MAX));
    assert_eq!(de.read_u32(), Ok(u32::MAX));
    assert_eq!(de.read_u64(), Ok(u64::MAX));
    assert_eq!(de.read_u128(), Ok(0));
    assert_eq!(de.read_i8(), Ok(i8::MIN));
    assert_eq!(de.read_i16(), Ok(i16::MIN));
    assert_eq!(de.read_i16(), Ok(i16::MAX));
    assert_eq!(de.read_i32(), Ok(-1));
    assert_eq!(de.read_i64(), Ok(i64::MAX));
    assert_eq!(de.read_i64(), Ok(i64::MIN));
    assert_eq!(de.read_i128(), Ok(i128::MAX));
    assert_eq!(de.read_i128(), Ok(i128::MIN));
    assert_eq!(de.read_i128(), Ok(-1));
    assert_eq!(de.remaining(), 0);
    assert_eq!(de.position(), bytes.len());
}

#[test]
fn booleans_take_one_byte() {
    let mut ser = BinarySerializer::new();
    ser.write_bool(true);
    ser.write_bool(false);
    assert_eq!(ser.into_bytes(), vec![1, 0]);
    let bytes = [0u8, 1, 2, 255];
    let mut de = BinaryDeserializer::new(&bytes);
    assert_eq!(de.read_bool(), Ok(false));
    assert_eq!(de.read_bool(), Ok(true));
    assert_eq!(de.read_bool(), Ok(true));
    assert_eq!(de.read_bool(), Ok(true));
    assert_eq!(de.read_bool(), Err(eof(1, 0, 4)));
}

#[test]
fn characters_are_narrowed_to_one_byte() {
    let mut ser = BinarySerializer::new();
    ser.write_char('A');
    ser.write_char('\u{e9}');
    ser.write_char('\u{20ac}');
    ser.write_char('\u{1f600}');
    let bytes = ser.into_bytes();
    assert_eq!(bytes, vec![0x41, 0xE9, 0xAC, 0x00]);
    let mut de = BinaryDeserializer::new(&bytes);
    assert_eq!(de.read_char(), Ok('A'));
    assert_eq!(de.read_char(), Ok('\u{e9}'));
    assert_eq!(de.read_char(), Ok('\u{ac}'));
    assert_eq!(de.read_char(), Ok('\0'));
    assert_eq!(de.read_char(), Err(eof(1, 0, 4)));
}

#[test]
fn text_is_length_prefixed_utf8() {
    let mut ser = BinarySerializer::new();
    ser.write_string("hi");
    ser.write_string("");
    ser.write_string("\u{e9}\u{20ac}");
    let bytes = ser.into_bytes();
    assert_eq!(
        bytes,
        vec![2, 0, 0, 0, b'h', b'i', 0, 0, 0, 0, 5, 0, 0, 0, 0xC3, 0xA9, 0xE2, 0x82, 0xAC]
    );
    let mut de = BinaryDeserializer::new(&bytes);
    assert_eq!(de.read_string(), Ok(String::from("hi")));
    assert_eq!(de.position(), 6);
    assert_eq!(de.read_string(), Ok(String::new()));
    assert_eq!(de.read_string(), Ok(String::from("\u{e9}\u{20ac}")));
    assert_eq!(de.remaining(), 0);
}

#[test]
fn text_that_is_not_utf8_is_refused() {
    let bytes = [2u8, 0, 0, 0, 0xC3, 0x28, 7];
    let mut de = BinaryDeserializer::new(&bytes);
    assert_eq!(
        de.read_string(),
        Err(BinarySerializeError { kind: ErrorKind::InvalidUtf8 })
    );
    assert_eq!(de.position(), 4);
    let lone = [1u8, 0, 0, 0, 0xFF];
    let mut de = BinaryDeserializer::new(&lone);
    assert_eq!(
        de.read_string(),
        Err(BinarySerializeError { kind: ErrorKind::InvalidUtf8 })
    );
}

#[test]
fn text_cut_short_is_a_truncation() {
    let bytes = [5u8, 0, 0, 0, b'a'];
    let mut de = BinaryDeserializer::new(&bytes);
    assert_eq!(de.read_string(), Err(eof(5, 1, 4)));
    assert_eq!(de.position(), 4);
    let short = [5u8, 0];
    let mut de = BinaryDeserializer::new(&short);
    assert_eq!(de.read_string(), Err(eof(4, 2, 0)));
    assert_eq!(de.position(), 0);
}

#[test]
fn blobs_are_length_prefixed() {
    let mut ser = BinarySerializer::new();
    ser.write_bytes(&[1, 2, 3]);
    ser.write_bytes(&[]);
    ser.write_raw(&[9, 8]);
    let bytes = ser.into_bytes();
    assert_eq!(bytes, vec![3, 0, 0, 0, 1, 2, 3, 0, 0, 0, 0, 9, 8]);
    let mut de = BinaryDeserializer::new(&bytes);
    assert_eq!(de.read_byte_buf(), Ok(&[1u8, 2, 3][..]));
    assert_eq!(de.read_byte_buf(), Ok(&[][..]));
    assert_eq!(de.read_bytes(2), Ok(&[9u8, 8][..]));
    assert_eq!(de.read_bytes(0), Ok(&[][..]));
    assert_eq!(de.read_bytes(1), Err(eof(1, 0, 13)));
}

#[test]
fn blob_cut_short_is_a_truncation() {
    let bytes = [4u8, 0, 0, 0, 1, 2];
    let mut de = BinaryDeserializer::new(&bytes);
    assert_eq!(de.read_byte_buf(), Err(eof(4, 2, 4)));
    assert_eq!(de.position(), 4);
    let err = de.read_byte_buf().unwrap_err();
    assert_eq!(err, eof(4, 2, 4));
    assert_eq!(err.missing(), 2);
}

#[test]
fn optional_values_carry_a_presence_byte() {
    let mut ser = BinarySerializer::new();
    ser.write_none();
    ser.write_some();
    ser.write_u16(7);
    let bytes = ser.into_bytes();
    assert_eq!(bytes, vec![0, 1, 7, 0]);
    let mut de = BinaryDeserializer::new(&bytes);
    assert_eq!(de.read_option_tag(), Ok(false));
    assert_eq!(de.read_option_tag(), Ok(true));
    assert_eq!(de.read_u16(), Ok(7));
    assert_eq!(de.read_option_tag(), Err(eof(1, 0, 4)));
}

#[test]
fn presence_byte_other_than_zero_or_one_is_refused() {
    for tag in [2u8, 3, 0x80, 0xFF] {
        let bytes = [tag, 0];
        let mut de = BinaryDeserializer::new(&bytes);
        assert_eq!(
            de.read_option_tag(),
            Err(BinarySerializeError { kind: ErrorKind::InvalidOptionTag { tag } })
        );
        assert_eq!(de.position(), 1);
    }
}

#[test]
fn sequence_needs_a_known_length() {
    let mut ser = BinarySerializer::new();
    assert_eq!(
        ser.begin_seq(None),
        Err(BinarySerializeError { kind: ErrorKind::UnknownLength })
    );
    assert_eq!(ser.len(), 0);
    assert_eq!(ser.begin_seq(Some(2)), Ok(()));
    ser.write_u8(10);
    ser.write_u8(20);
    assert_eq!(ser.into_bytes(), vec![2, 0, 0, 0, 10, 20]);
}

#[test]
fn mapping_count_defaults_to_zero() {
    let mut ser = BinarySerializer::new();
    ser.begin_map(Some(3));
    ser.begin_map(None);
    assert_eq!(ser.into_bytes(), vec![3, 0, 0, 0, 0, 0, 0, 0]);
}

#[test]
fn lengths_and_variant_indices_take_four_bytes() {
    let mut ser = BinarySerializer::new();
    ser.write_len(0x0001_0203);
    ser.write_variant(5);
    let bytes = ser.into_bytes();
    assert_eq!(bytes, vec![3, 2, 1, 0, 5, 0, 0, 0]);
    let mut de = BinaryDeserializer::new(&bytes);
    assert_eq!(de.read_len(), Ok(0x0001_0203));
    assert_eq!(de.read_variant(), Ok(5));
    assert_eq!(de.read_variant(), Err(eof(4, 0, 8)));
    assert_eq!(de.read_len(), Err(eof(4, 0, 8)));
}

#[test]
fn truncated_integers_leave_the_reader_in_place() {
    let bytes = [1u8, 2, 3];
    let mut de = BinaryDeserializer::new(&bytes);
    assert_eq!(de.read_u32(), Err(eof(4, 3, 0)));
    assert_eq!(de.read_i32(), Err(eof(4, 3, 0)));
    assert_eq!(de.read_u64(), Err(eof(8, 3, 0)));
    assert_eq!(de.read_i64(), Err(eof(8, 3, 0)));
    assert_eq!(de.read_u128(), Err(eof(16, 3, 0)));
    assert_eq!(de.read_i128(), Err(eof(16, 3, 0)));
    assert_eq!(de.read_uint(5), Err(eof(5, 3, 0)));
    assert_eq!(de.position(), 0);
    assert_eq!(de.read_u8(), Ok(1));
    assert_eq!(de.read_u16(), Ok(0x0302));
    assert_eq!(de.read_u16(), Err(eof(2, 0, 3)));
    assert_eq!(de.read_i16(), Err(eof(2, 0, 3)));
    assert_eq!(de.read_u8(), Err(eof(1, 0, 3)));
    assert_eq!(de.read_i8(), Err(eof(1, 0, 3)));
}

#[test]
fn ensure_available_reports_need_have_and_position() {
    let bytes = [0u8; 6];
    let mut de = BinaryDeserializer::new(&bytes);
    assert_eq!(de.ensure_available(6), Ok(()));
    assert_eq!(de.ensure_available(7), Err(eof(7, 6, 0)));
    assert_eq!(de.read_u16(), Ok(0));
    assert_eq!(de.ensure_available(4), Ok(()));
    assert_eq!(de.ensure_available(5), Err(eof(5, 4, 2)));
    assert_eq!(de.ensure_available(usize::MAX), Err(eof(usize::MAX, 4, 2)));
    assert_eq!(de.ensure_available(0), Ok(()));
}

#[test]
fn read_exact_copies_the_next_bytes() {
    let bytes = [1u8, 2, 3, 4, 5];
    let mut de = BinaryDeserializer::new(&bytes);
    assert_eq!(de.read_exact::<2>(), Ok([1, 2]));
    assert_eq!(de.read_exact::<0>(), Ok([]));
    assert_eq!(de.read_exact::<4>(), Err(eof(4, 3, 2)));
    assert_eq!(de.read_exact::<3>(), Ok([3, 4, 5]));
    assert_eq!(de.remaining(), 0);
}

#[test]
fn read_uint_reads_any_width_up_to_sixteen() {
    let bytes = [0x01u8, 0x02, 0x03, 0xFF, 0xFF, 0xFF];
    let mut de = BinaryDeserializer::new(&bytes);
    assert_eq!(de.read_uint(3), Ok(0x030201));
    assert_eq!(de.read_uint(0), Ok(0));
    assert_eq!(de.read_uint(3), Ok(0xFFFFFF));
}

#[test]
fn reading_without_a_shape_is_refused() {
    let bytes = [1u8, 2, 3];
    let de = BinaryDeserializer::new(&bytes);
    assert_eq!(
        de.read_any(),
        Err(BinarySerializeError { kind: ErrorKind::ShapeRequired })
    );
    assert_eq!(de.position(), 0);
}

#[test]
fn missing_is_zero_for_other_failures() {
    assert_eq!(eof(10, 4, 0).missing(), 6);
    assert_eq!(eof(4, 4, 0).missing(), 0);
    assert_eq!(eof(3, 9, 0).missing(), 0);
    assert_eq!(BinarySerializeError { kind: ErrorKind::InvalidUtf8 }.missing(), 0);
    assert_eq!(
        BinarySerializeError { kind: ErrorKind::UnsupportedParam { id: 9 } }.missing(),
        0
    );
}

#[test]
fn countdown_hands_out_each_element_once() {
    let mut left = Countdown::new(2);
    assert_eq!(left.remaining(), 2);
    assert!(left.has_next());
    assert!(left.next());
    assert!(left.next());
    assert!(!left.has_next());
    assert!(!left.next());
    assert_eq!(left.remaining(), 0);
    let mut none = Countdown::new(0);
    assert!(!none.next());
}
