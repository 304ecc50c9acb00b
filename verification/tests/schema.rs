use mower_msg::msg::schema::{Shape, Value};
use mower_msg::msg::serialization::{
    BinaryDeserializer, BinarySerializeError, BinarySerializer, ErrorKind,
};

fn eof(need: usize, have: usize, pos: usize) -> BinarySerializeError {
    BinarySerializeError { kind: ErrorKind::UnexpectedEof { need, have, pos } }
}

fn bytes_of(v: &Value) -> Vec<u8> {
    let mut ser = BinarySerializer::new();
    v.serialize(&mut ser);
    ser.into_bytes()
}

fn read(shape: &Shape, bytes: &[u8]) -> Result<(Value, usize), BinarySerializeError> {
    let mut de = BinaryDeserializer::new(bytes);
    let v = shape.deserialize(&mut de)?;
    Ok((v, de.position()))
}

fn same(a: &Value, b: &Value) -> bool {
    format!("{a:?}") == format!("{b:?}")
}

fn round_trips(shape: &Shape, v: &Value) {
    let mut bytes = bytes_of(v);
    let len = bytes.len();
    bytes.extend_from_slice(&[0xEE, 0xEE]);
    let (back, used) = read(shape, &bytes).unwrap();
    assert!(same(&back, v), "{back:?} != {v:?}");
    assert_eq!(used, len);
}

#[test]
fn scalar_values_are_exact() {
    assert_eq!(bytes_of(&Value::Unit), Vec::<u8>::new());
    assert_eq!(bytes_of(&Value::Bool(true)), vec![1]);
    assert_eq!(bytes_of(&Value::U8(7)), vec![7]);
    assert_eq!(bytes_of(&Value::U16(0x0102)), vec![2, 1]);
    assert_eq!(bytes_of(&Value::U32(0x01020304)), vec![4, 3, 2, 1]);
    assert_eq!(bytes_of(&Value::U64(1)), vec![1, 0, 0, 0, 0, 0, 0, 0]);
    assert_eq!(bytes_of(&Value::U128(u128::MAX)), vec![0xFF; 16]);
    assert_eq!(bytes_of(&Value::I8(-1)), vec![0xFF]);
    assert_eq!(bytes_of(&Value::I16(-2)), vec![0xFE, 0xFF]);
    assert_eq!(bytes_of(&Value::I32(-3)), vec![0xFD, 0xFF, 0xFF, 0xFF]);
    assert_eq!(bytes_of(&Value::I64(i64::MIN)), vec![0, 0, 0, 0, 0, 0, 0, 0x80]);
    assert_eq!(bytes_of(&Value::I128(-1)), vec![0xFF; 16]);
    assert_eq!(bytes_of(&Value::Char('z')), vec![b'z']);
    assert_eq!(bytes_of(&Value::Str(String::from("ab"))), vec![2, 0, 0, 0, b'a', b'b']);
    assert_eq!(bytes_of(&Value::Bytes(vec![9, 8])), vec![2, 0, 0, 0, 9, 8]);
}

#[test]
fn composite_values_are_exact() {
    assert_eq!(bytes_of(&Value::Optional(None)), vec![0]);
    assert_eq!(
        bytes_of(&Value::Optional(Some(Box::new(Value::U16(5))))),
        vec![1, 5, 0]
    );
    assert_eq!(
        bytes_of(&Value::Sequence(vec![Value::U8(1), Value::U8(2), Value::U8(3)])),
        vec![3, 0, 0, 0, 1, 2, 3]
    );
    assert_eq!(bytes_of(&Value::Sequence(vec![])), vec![0, 0, 0, 0]);
    assert_eq!(
        bytes_of(&Value::Tuple(vec![Value::U8(1), Value::U16(2), Value::Bool(false)])),
        vec![1, 2, 0, 0]
    );
    assert_eq!(bytes_of(&Value::Tuple(vec![])), Vec::<u8>::new());
    assert_eq!(
        bytes_of(&Value::Mapping(vec![
            (Value::U8(1), Value::Str(String::from("a"))),
            (Value::U8(2), Value::Str(String::new())),
        ])),
        vec![2, 0, 0, 0, 1, 1, 0, 0, 0, b'a', 2, 0, 0, 0, 0]
    );
    assert_eq!(
        bytes_of(&Value::Variant(2, Box::new(Value::Unit))),
        vec![2, 0, 0, 0]
    );
    assert_eq!(
        bytes_of(&Value::Variant(1, Box::new(Value::U8(9)))),
        vec![1, 0, 0, 0, 9]
    );
    assert_eq!(
        bytes_of(&Value::Variant(
            0,
            Box::new(Value::Tuple(vec![Value::U8(9), Value::I8(-9)]))
        )),
        vec![0, 0, 0, 0, 9, 0xF7]
    );
}

#[test]
fn a_record_is_its_fields_in_order_without_names() {
    let record = Value::Tuple(vec![Value::U8(1), Value::U8(3), Value::U8(2), Value::U8(1)]);
    assert_eq!(bytes_of(&record), vec![1, 3, 2, 1]);
    let shape = Shape::Tuple(vec![Shape::U8, Shape::U8, Shape::U8, Shape::U8]);
    round_trips(&shape, &record);
    let reordered = Value::Tuple(vec![Value::U8(1), Value::U8(2), Value::U8(3), Value::U8(1)]);
    assert_ne!(bytes_of(&reordered), bytes_of(&record));
}

#[test]
fn scalars_round_trip() {
    round_trips(&Shape::Unit, &Value::Unit);
    round_trips(&Shape::Bool, &Value::Bool(true));
    round_trips(&Shape::Bool, &Value::Bool(false));
    round_trips(&Shape::U8, &Value::U8(255));
    round_trips(&Shape::U16, &Value::U16(65535));
    round_trips(&Shape::U32, &Value::U32(u32::MAX));
    round_trips(&Shape::U64, &Value::U64(u64::MAX));
    round_trips(&Shape::U128, &Value::U128(u128::MAX - 1));
    round_trips(&Shape::I8, &Value::I8(i8::MIN));
    round_trips(&Shape::I16, &Value::I16(i16::MIN));
    round_trips(&Shape::I32, &Value::I32(i32::MIN));
    round_trips(&Shape::I64, &Value::I64(i64::MIN));
    round_trips(&Shape::I128, &Value::I128(i128::MIN));
    round_trips(&Shape::I128, &Value::I128(i128::MAX));
    round_trips(&Shape::Char, &Value::Char('\u{ff}'));
    round_trips(&Shape::Str, &Value::Str(String::from("gr\u{fc}n \u{1f331}")));
    round_trips(&Shape::Bytes, &Value::Bytes(vec![0, 255, 7]));
}

fn nested_shape() -> Shape {
    Shape::Tuple(vec![
        Shape::U16,
        Shape::Optional(Box::new(Shape::Str)),
        Shape::Sequence(Box::new(Shape::Tuple(vec![Shape::I32, Shape::Bool]))),
        Shape::Mapping(Box::new(Shape::U8), Box::new(Shape::Sequence(Box::new(Shape::Char)))),
        Shape::Enum(vec![
            Shape::Unit,
            Shape::U64,
            Shape::Tuple(vec![Shape::I8, Shape::Bytes]),
        ]),
    ])
}

fn nested_value(variant: Value) -> Value {
    Value::Tuple(vec![
        Value::U16(0xBEEF),
        Value::Optional(Some(Box::new(Value::Str(String::from("mow"))))),
        Value::Sequence(vec![
            Value::Tuple(vec![Value::I32(-1), Value::Bool(true)]),
            Value::Tuple(vec![Value::I32(70000), Value::Bool(false)]),
        ]),
        Value::Mapping(vec![
            (Value::U8(1), Value::Sequence(vec![Value::Char('a'), Value::Char('b')])),
            (Value::U8(2), Value::Sequence(vec![])),
        ]),
        variant,
    ])
}

#[test]
fn nested_values_round_trip() {
    let shape = nested_shape();
    round_trips(&shape, &nested_value(Value::Variant(0, Box::new(Value::Unit))));
    round_trips(&shape, &nested_value(Value::Variant(1, Box::new(Value::U64(99)))));
    round_trips(
        &shape,
        &nested_value(Value::Variant(
            2,
            Box::new(Value::Tuple(vec![Value::I8(-5), Value::Bytes(vec![1, 2, 3])])),
        )),
    );
}

#[test]
fn nested_value_bytes_are_exact() {
    let v = nested_value(Value::Variant(1, Box::new(Value::U64(2))));
    let mut expected = vec![0xEF, 0xBE];
    expected.extend_from_slice(&[1, 3, 0, 0, 0, b'm', b'o', b'w']);
    expected.extend_from_slice(&[2, 0, 0, 0]);
    expected.extend_from_slice(&[0xFF, 0xFF, 0xFF, 0xFF, 1]);
    expected.extend_from_slice(&[0x70, 0x11, 0x01, 0x00, 0]);
    expected.extend_from_slice(&[2, 0, 0, 0]);
    expected.extend_from_slice(&[1, 2, 0, 0, 0, b'a', b'b']);
    expected.extend_from_slice(&[2, 0, 0, 0, 0]);
    expected.extend_from_slice(&[1, 0, 0, 0, 2, 0, 0, 0, 0, 0, 0, 0]);
    assert_eq!(bytes_of(&v), expected);
}

#[test]
fn wide_characters_do_not_survive() {
    let bytes = bytes_of(&Value::Char('\u{20ac}'));
    assert_eq!(bytes, vec![0xAC]);
    let (back, _) = read(&Shape::Char, &bytes).unwrap();
    assert!(same(&back, &Value::Char('\u{ac}')));
}

#[test]
fn any_nonzero_byte_reads_as_true() {
    let (v, used) = read(&Shape::Bool, &[2]).unwrap();
    assert!(same(&v, &Value::Bool(true)));
    assert_eq!(used, 1);
}

#[test]
fn truncated_values_are_refused_with_their_position() {
    assert_eq!(read(&Shape::U16, &[1]).err(), Some(eof(2, 1, 0)));
    assert_eq!(read(&Shape::Bool, &[]).err(), Some(eof(1, 0, 0)));
    assert_eq!(read(&Shape::Char, &[]).err(), Some(eof(1, 0, 0)));
    assert_eq!(read(&Shape::I64, &[0; 7]).err(), Some(eof(8, 7, 0)));
    assert_eq!(read(&Shape::Str, &[3, 0, 0, 0, b'a']).err(), Some(eof(3, 1, 4)));
    assert_eq!(read(&Shape::Bytes, &[3, 0]).err(), Some(eof(4, 2, 0)));
    let seq = Shape::Sequence(Box::new(Shape::U16));
    assert_eq!(read(&seq, &[2, 0, 0, 0, 1, 0, 2]).err(), Some(eof(2, 1, 6)));
    assert_eq!(read(&seq, &[2, 0, 0]).err(), Some(eof(4, 3, 0)));
    let tuple = Shape::Tuple(vec![Shape::U8, Shape::U32]);
    assert_eq!(read(&tuple, &[1, 2, 3]).err(), Some(eof(4, 2, 1)));
    let map = Shape::Mapping(Box::new(Shape::U8), Box::new(Shape::U16));
    assert_eq!(read(&map, &[1, 0, 0, 0, 9, 1]).err(), Some(eof(2, 1, 5)));
    assert_eq!(read(&map, &[1, 0, 0, 0]).err(), Some(eof(1, 0, 4)));
    let opt = Shape::Optional(Box::new(Shape::U16));
    assert_eq!(read(&opt, &[1, 5]).err(), Some(eof(2, 1, 1)));
    assert_eq!(read(&opt, &[]).err(), Some(eof(1, 0, 0)));
    let en = Shape::Enum(vec![Shape::Unit, Shape::U16]);
    assert_eq!(read(&en, &[1, 0, 0, 0, 7]).err(), Some(eof(2, 1, 4)));
    assert_eq!(read(&en, &[1, 0]).err(), Some(eof(4, 2, 0)));
}

#[test]
fn invalid_tags_text_and_variants_are_refused() {
    let opt = Shape::Optional(Box::new(Shape::U8));
    assert_eq!(
        read(&opt, &[2, 0]).err(),
        Some(BinarySerializeError { kind: ErrorKind::InvalidOptionTag { tag: 2 } })
    );
    assert_eq!(
        read(&Shape::Str, &[2, 0, 0, 0, 0xC3, 0x28]).err(),
        Some(BinarySerializeError { kind: ErrorKind::InvalidUtf8 })
    );
    let en = Shape::Enum(vec![Shape::Unit, Shape::U16]);
    assert_eq!(
        read(&en, &[2, 0, 0, 0]).err(),
        Some(BinarySerializeError { kind: ErrorKind::UnknownVariant { index: 2 } })
    );
    assert_eq!(
        read(&Shape::Enum(vec![]), &[0, 0, 0, 0]).err(),
        Some(BinarySerializeError { kind: ErrorKind::UnknownVariant { index: 0 } })
    );
    let nested = Shape::Sequence(Box::new(Shape::Optional(Box::new(Shape::U8))));
    assert_eq!(
        read(&nested, &[2, 0, 0, 0, 0, 7]).err(),
        Some(BinarySerializeError { kind: ErrorKind::InvalidOptionTag { tag: 7 } })
    );
}

#[test]
fn absent_and_present_optionals_read() {
    let opt = Shape::Optional(Box::new(Shape::U16));
    let (none, used) = read(&opt, &[0, 9, 9]).unwrap();
    assert!(same(&none, &Value::Optional(None)));
    assert_eq!(used, 1);
    let (some, used) = read(&opt, &[1, 9, 0]).unwrap();
    assert!(same(&some, &Value::Optional(Some(Box::new(Value::U16(9))))));
    assert_eq!(used, 3);
}

#[test]
fn values_follow_one_another_without_gaps() {
    let mut ser = BinarySerializer::new();
    Value::U16(1).serialize(&mut ser);
    Value::Str(String::from("x")).serialize(&mut ser);
    Value::Optional(None).serialize(&mut ser);
    let bytes = ser.into_bytes();
    assert_eq!(bytes, vec![1, 0, 1, 0, 0, 0, b'x', 0]);
    let mut de = BinaryDeserializer::new(&bytes);
    assert!(same(&Shape::U16.deserialize(&mut de).unwrap(), &Value::U16(1)));
    assert!(same(
        &Shape::Str.deserialize(&mut de).unwrap(),
        &Value::Str(String::from("x"))
    ));
    assert!(same(
        &Shape::Optional(Box::new(Shape::U8)).deserialize(&mut de).unwrap(),
        &Value::Optional(None)
    ));
    assert_eq!(de.remaining(), 0);
}

#[test]
fn failed_read_leaves_the_reader_in_place() {
    let bytes = [7u8, 2, 0, 0, 0, 1, 0, 9];
    let mut de = BinaryDeserializer::new(&bytes);
    assert_eq!(de.read_u8(), Ok(7));
    let seq = Shape::Sequence(Box::new(Shape::U16));
    assert_eq!(seq.deserialize(&mut de).err(), Some(eof(2, 1, 7)));
    assert_eq!(de.position(), 1);
    assert_eq!(de.remaining(), 7);
    let shorter = Shape::Tuple(vec![Shape::U32, Shape::U16]);
    assert!(shorter.deserialize(&mut de).is_ok());
    assert_eq!(de.position(), 7);
}
