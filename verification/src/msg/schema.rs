//! Values described by a shape: the codec for data whose layout is given
//! as a description rather than as code.
//!
//! A [`Shape`] says what is on the wire: a scalar, text, a blob, an
//! optional value, a sequence, a record of fields in a fixed order, a
//! mapping, or one of several variants. A [`Value`] is a piece of data.
//! Writing needs only the value; reading needs the shape, because the
//! encoding names neither fields nor types.
//!
//! An IEEE number travels as its bit pattern: a single-precision one as
//! `U32`, a double-precision one as `U64`.

use vstd::prelude::*;
use vstd::utf8::{decode_utf8, encode_utf8, valid_utf8};
use crate::msg::serialization::{
    append, blob_body, blob_len, dec_int, enc_bool, enc_bytes, enc_char, enc_int, enc_str,
    eof_error, lemma_bytes_round_trip, lemma_char_round_trip, lemma_int_round_trip,
    lemma_str_round_trip, BinaryDeserializer, BinarySerializeError, BinarySerializer, ErrorKind,
};
use crate::msg::wire::{
    le_bytes, le_value, lemma_le_bytes_len, lemma_le_value_bound, lemma_le_value_of_bytes,
    lemma_le_value_one, lemma_pow256_values, lemma_twos_of_pattern, pow256,
};

verus! {

/// What a value on the wire is made of.
#[derive(Debug)]
pub enum Shape {
    /// Nothing: takes no bytes.
    Unit,
    Bool,
    U8,
    U16,
    U32,
    U64,
    U128,
    I8,
    I16,
    I32,
    I64,
    I128,
    /// A character in one byte.
    Char,
    /// Text behind a four-byte length.
    Str,
    /// Raw bytes behind a four-byte length.
    Bytes,
    /// A presence byte, then the value if present.
    Optional(Box<Shape>),
    /// A four-byte count, then that many values of one shape.
    Sequence(Box<Shape>),
    /// Fields of the given shapes in the given order with nothing in
    /// between: a tuple or a record.
    Tuple(Vec<Shape>),
    /// A four-byte count, then that many keys and values in turn.
    Mapping(Box<Shape>, Box<Shape>),
    /// A four-byte index into the given variants, then the content of the
    /// variant it names.
    Enum(Vec<Shape>),
}

/// A piece of data that can be written.
#[derive(Debug)]
pub enum Value {
    Unit,
    Bool(bool),
    U8(u8),
    U16(u16),
    U32(u32),
    U64(u64),
    U128(u128),
    I8(i8),
    I16(i16),
    I32(i32),
    I64(i64),
    I128(i128),
    Char(char),
    Str(String),
    Bytes(Vec<u8>),
    Optional(Option<Box<Value>>),
    Sequence(Vec<Value>),
    Tuple(Vec<Value>),
    Mapping(Vec<(Value, Value)>),
    /// The variant at the given index of its type, with its content.
    Variant(u32, Box<Value>),
}

/// What a value holds.
pub enum Tree {
    Unit,
    Bool(bool),
    U8(u8),
    U16(u16),
    U32(u32),
    U64(u64),
    U128(u128),
    I8(i8),
    I16(i16),
    I32(i32),
    I64(i64),
    I128(i128),
    Char(char),
    Str(Seq<char>),
    Bytes(Seq<u8>),
    Optional(Option<Box<Tree>>),
    Sequence(Seq<Tree>),
    Tuple(Seq<Tree>),
    Mapping(Seq<(Tree, Tree)>),
    Variant(u32, Box<Tree>),
}

/// What the value `v` holds.
pub open spec fn tree_of(v: Value) -> Tree
    decreases v,
{
    match v {
        Value::Unit => Tree::Unit,
        Value::Bool(x) => Tree::Bool(x),
        Value::U8(x) => Tree::U8(x),
        Value::U16(x) => Tree::U16(x),
        Value::U32(x) => Tree::U32(x),
        Value::U64(x) => Tree::U64(x),
        Value::U128(x) => Tree::U128(x),
        Value::I8(x) => Tree::I8(x),
        Value::I16(x) => Tree::I16(x),
        Value::I32(x) => Tree::I32(x),
        Value::I64(x) => Tree::I64(x),
        Value::I128(x) => Tree::I128(x),
        Value::Char(x) => Tree::Char(x),
        Value::Str(s) => Tree::Str(s@),
        Value::Bytes(b) => Tree::Bytes(b@),
        Value::Optional(None) => Tree::Optional(None),
        Value::Optional(Some(inner)) => Tree::Optional(Some(Box::new(tree_of(*inner)))),
        Value::Sequence(items) => Tree::Sequence(
            Seq::new(
                items@.len(),
                |i: int|
                    if 0 <= i < items@.len() {
                        tree_of(items@[i])
                    } else {
                        Tree::Unit
                    },
            ),
        ),
        Value::Tuple(items) => Tree::Tuple(
            Seq::new(
                items@.len(),
                |i: int|
                    if 0 <= i < items@.len() {
                        tree_of(items@[i])
                    } else {
                        Tree::Unit
                    },
            ),
        ),
        Value::Mapping(entries) => Tree::Mapping(
            Seq::new(
                entries@.len(),
                |i: int|
                    if 0 <= i < entries@.len() {
                        (tree_of(entries@[i].0), tree_of(entries@[i].1))
                    } else {
                        (Tree::Unit, Tree::Unit)
                    },
            ),
        ),
        Value::Variant(index, inner) => Tree::Variant(index, Box::new(tree_of(*inner))),
    }
}

impl View for Value {
    type V = Tree;

    open spec fn view(&self) -> Tree {
        tree_of(*self)
    }
}

/// The encoding of a value.
pub open spec fn encode(v: Tree) -> Seq<u8>
    decreases v, 1nat, 0nat,
{
    match v {
        Tree::Unit => Seq::empty(),
        Tree::Bool(x) => enc_bool(x),
        Tree::U8(x) => seq![x],
        Tree::U16(x) => le_bytes(x as nat, 2),
        Tree::U32(x) => le_bytes(x as nat, 4),
        Tree::U64(x) => le_bytes(x as nat, 8),
        Tree::U128(x) => le_bytes(x as nat, 16),
        Tree::I8(x) => enc_int(x as int, 1),
        Tree::I16(x) => enc_int(x as int, 2),
        Tree::I32(x) => enc_int(x as int, 4),
        Tree::I64(x) => enc_int(x as int, 8),
        Tree::I128(x) => enc_int(x as int, 16),
        Tree::Char(c) => enc_char(c),
        Tree::Str(s) => enc_str(s),
        Tree::Bytes(b) => enc_bytes(b),
        Tree::Optional(None) => seq![0u8],
        Tree::Optional(Some(inner)) => seq![1u8] + encode(*inner),
        Tree::Sequence(items) => le_bytes(items.len(), 4) + encode_items(v, 0),
        Tree::Tuple(items) => encode_items(v, 0),
        Tree::Mapping(entries) => le_bytes(entries.len(), 4) + encode_entries(v, 0),
        Tree::Variant(index, inner) => le_bytes(index as nat, 4) + encode(*inner),
    }
}

/// The items of a sequence or tuple.
pub open spec fn items_of(v: Tree) -> Seq<Tree> {
    match v {
        Tree::Sequence(items) => items,
        Tree::Tuple(items) => items,
        _ => Seq::empty(),
    }
}

/// The entries of a mapping.
pub open spec fn entries_of(v: Tree) -> Seq<(Tree, Tree)> {
    match v {
        Tree::Mapping(entries) => entries,
        _ => Seq::empty(),
    }
}

/// The encodings of the items of the sequence or tuple `v` from the
/// `from`-th on, one after the other.
pub open spec fn encode_items(v: Tree, from: nat) -> Seq<u8>
    decreases v, 0nat, items_of(v).len() - from,
{
    if from >= items_of(v).len() {
        Seq::empty()
    } else {
        encode(items_of(v)[from as int]) + encode_items(v, from + 1)
    }
}

/// The encodings of the entries of the mapping `v` from the `from`-th on:
/// key, value, key, value.
pub open spec fn encode_entries(v: Tree, from: nat) -> Seq<u8>
    decreases v, 0nat, entries_of(v).len() - from,
{
    if from >= entries_of(v).len() {
        Seq::empty()
    } else {
        encode(entries_of(v)[from as int].0) + encode(entries_of(v)[from as int].1)
            + encode_entries(v, from + 1)
    }
}

/// The shapes listed in a tuple or an enum.
pub open spec fn shapes_of(shape: Shape) -> Seq<Shape> {
    match shape {
        Shape::Tuple(fields) => fields@,
        Shape::Enum(variants) => variants@,
        _ => Seq::empty(),
    }
}

/// The error for a variant index that names no variant.
pub open spec fn unknown_variant(index: nat) -> BinarySerializeError {
    BinarySerializeError { kind: ErrorKind::UnknownVariant { index: index as u32 } }
}

/// The error for a presence byte that is neither 0 nor 1.
pub open spec fn invalid_tag(tag: u8) -> BinarySerializeError {
    BinarySerializeError { kind: ErrorKind::InvalidOptionTag { tag } }
}

/// The error for text that is not UTF-8.
pub open spec fn invalid_utf8() -> BinarySerializeError {
    BinarySerializeError { kind: ErrorKind::InvalidUtf8 }
}

/// The first `n` bytes of `b` as an unsigned number; a truncation if `b`
/// is shorter. `pos` is where `b` starts in the buffer.
pub open spec fn decode_uint(b: Seq<u8>, pos: nat, n: nat) -> Result<nat, BinarySerializeError> {
    if b.len() < n {
        Err(eof_error(pos, n, b.len()))
    } else {
        Ok(le_value(b.take(n as int)))
    }
}

/// The first `n` bytes of `b` as a signed number; a truncation if `b` is
/// shorter.
pub open spec fn decode_sint(b: Seq<u8>, pos: nat, n: nat) -> Result<int, BinarySerializeError> {
    if b.len() < n {
        Err(eof_error(pos, n, b.len()))
    } else {
        Ok(dec_int(b.take(n as int)))
    }
}

/// The length-prefixed blob at the front of `b`; a truncation if the
/// length or the bytes are cut short.
pub open spec fn decode_blob(b: Seq<u8>, pos: nat) -> Result<Seq<u8>, BinarySerializeError> {
    if b.len() < 4 {
        Err(eof_error(pos, 4, b.len()))
    } else if b.len() - 4 < blob_len(b) {
        Err(eof_error(pos + 4, blob_len(b), (b.len() - 4) as nat))
    } else {
        Ok(blob_body(b))
    }
}

/// What the bytes `b`, found at offset `pos` of a buffer, read as under
/// `shape`: the value at their front and how many bytes it takes, or the
/// first failure met.
pub open spec fn decode(shape: Shape, b: Seq<u8>, pos: nat) -> Result<
    (Tree, nat),
    BinarySerializeError,
>
    decreases shape, 1nat, 0nat,
{
    match shape {
        Shape::Unit => Ok((Tree::Unit, 0)),
        Shape::Bool => match decode_uint(b, pos, 1) {
            Ok(x) => Ok((Tree::Bool(x != 0), 1)),
            Err(e) => Err(e),
        },
        Shape::U8 => match decode_uint(b, pos, 1) {
            Ok(x) => Ok((Tree::U8(x as u8), 1)),
            Err(e) => Err(e),
        },
        Shape::U16 => match decode_uint(b, pos, 2) {
            Ok(x) => Ok((Tree::U16(x as u16), 2)),
            Err(e) => Err(e),
        },
        Shape::U32 => match decode_uint(b, pos, 4) {
            Ok(x) => Ok((Tree::U32(x as u32), 4)),
            Err(e) => Err(e),
        },
        Shape::U64 => match decode_uint(b, pos, 8) {
            Ok(x) => Ok((Tree::U64(x as u64), 8)),
            Err(e) => Err(e),
        },
        Shape::U128 => match decode_uint(b, pos, 16) {
            Ok(x) => Ok((Tree::U128(x as u128), 16)),
            Err(e) => Err(e),
        },
        Shape::I8 => match decode_sint(b, pos, 1) {
            Ok(x) => Ok((Tree::I8(x as i8), 1)),
            Err(e) => Err(e),
        },
        Shape::I16 => match decode_sint(b, pos, 2) {
            Ok(x) => Ok((Tree::I16(x as i16), 2)),
            Err(e) => Err(e),
        },
        Shape::I32 => match decode_sint(b, pos, 4) {
            Ok(x) => Ok((Tree::I32(x as i32), 4)),
            Err(e) => Err(e),
        },
        Shape::I64 => match decode_sint(b, pos, 8) {
            Ok(x) => Ok((Tree::I64(x as i64), 8)),
            Err(e) => Err(e),
        },
        Shape::I128 => match decode_sint(b, pos, 16) {
            Ok(x) => Ok((Tree::I128(x as i128), 16)),
            Err(e) => Err(e),
        },
        Shape::Char => match decode_uint(b, pos, 1) {
            Ok(x) => Ok((Tree::Char(x as u8 as char), 1)),
            Err(e) => Err(e),
        },
        Shape::Str => match decode_blob(b, pos) {
            Ok(body) => if valid_utf8(body) {
                Ok((Tree::Str(decode_utf8(body)), 4 + body.len()))
            } else {
                Err(invalid_utf8())
            },
            Err(e) => Err(e),
        },
        Shape::Bytes => match decode_blob(b, pos) {
            Ok(body) => Ok((Tree::Bytes(body), 4 + body.len())),
            Err(e) => Err(e),
        },
        Shape::Optional(inner) => match decode_uint(b, pos, 1) {
            Ok(tag) => if tag == 0 {
                Ok((Tree::Optional(None), 1))
            } else if tag == 1 {
                match decode(*inner, b.skip(1), pos + 1) {
                    Ok((v, n)) => Ok((Tree::Optional(Some(Box::new(v))), 1 + n)),
                    Err(e) => Err(e),
                }
            } else {
                Err(invalid_tag(tag as u8))
            },
            Err(e) => Err(e),
        },
        Shape::Sequence(_) => match decode_uint(b, pos, 4) {
            Ok(count) => match decode_repeat(shape, count, b.skip(4), pos + 4) {
                Ok((items, n)) => Ok((Tree::Sequence(items), 4 + n)),
                Err(e) => Err(e),
            },
            Err(e) => Err(e),
        },
        Shape::Tuple(_) => match decode_fields(shape, 0, b, pos) {
            Ok((items, n)) => Ok((Tree::Tuple(items), n)),
            Err(e) => Err(e),
        },
        Shape::Mapping(_, _) => match decode_uint(b, pos, 4) {
            Ok(count) => match decode_entries(shape, count, b.skip(4), pos + 4) {
                Ok((entries, n)) => Ok((Tree::Mapping(entries), 4 + n)),
                Err(e) => Err(e),
            },
            Err(e) => Err(e),
        },
        Shape::Enum(variants) => match decode_uint(b, pos, 4) {
            Ok(index) => if index < variants@.len() {
                match decode(variants@[index as int], b.skip(4), pos + 4) {
                    Ok((v, n)) => Ok((Tree::Variant(index as u32, Box::new(v)), 4 + n)),
                    Err(e) => Err(e),
                }
            } else {
                Err(unknown_variant(index))
            },
            Err(e) => Err(e),
        },
    }
}

/// `count` values of the element shape of the sequence shape `shape`, one
/// after the other from the front of `b`.
pub open spec fn decode_repeat(shape: Shape, count: nat, b: Seq<u8>, pos: nat) -> Result<
    (Seq<Tree>, nat),
    BinarySerializeError,
>
    decreases shape, 0nat, count,
{
    match shape {
        Shape::Sequence(elem) => if count == 0 {
            Ok((Seq::empty(), 0))
        } else {
            match decode(*elem, b, pos) {
                Err(e) => Err(e),
                Ok((v, n)) => match decode_repeat(
                    shape,
                    (count - 1) as nat,
                    b.skip(n as int),
                    pos + n,
                ) {
                    Err(e) => Err(e),
                    Ok((rest, m)) => Ok((seq![v] + rest, n + m)),
                },
            }
        },
        _ => Ok((Seq::empty(), 0)),
    }
}

/// The fields of the tuple shape `shape` from the `from`-th on, one after
/// the other from the front of `b`.
pub open spec fn decode_fields(shape: Shape, from: nat, b: Seq<u8>, pos: nat) -> Result<
    (Seq<Tree>, nat),
    BinarySerializeError,
>
    decreases shape, 0nat, shapes_of(shape).len() - from,
{
    match shape {
        Shape::Tuple(fields) => if from >= fields@.len() {
            Ok((Seq::empty(), 0))
        } else {
            match decode(fields@[from as int], b, pos) {
                Err(e) => Err(e),
                Ok((v, n)) => match decode_fields(shape, from + 1, b.skip(n as int), pos + n) {
                    Err(e) => Err(e),
                    Ok((rest, m)) => Ok((seq![v] + rest, n + m)),
                },
            }
        },
        _ => Ok((Seq::empty(), 0)),
    }
}

/// `count` entries of the mapping shape `shape`, key then value, one after
/// the other from the front of `b`.
pub open spec fn decode_entries(shape: Shape, count: nat, b: Seq<u8>, pos: nat) -> Result<
    (Seq<(Tree, Tree)>, nat),
    BinarySerializeError,
>
    decreases shape, 0nat, count,
{
    match shape {
        Shape::Mapping(key, value) => if count == 0 {
            Ok((Seq::empty(), 0))
        } else {
            match decode(*key, b, pos) {
                Err(e) => Err(e),
                Ok((k, n)) => match decode(*value, b.skip(n as int), pos + n) {
                    Err(e) => Err(e),
                    Ok((v, m)) => match decode_entries(
                        shape,
                        (count - 1) as nat,
                        b.skip(n as int).skip(m as int),
                        pos + n + m,
                    ) {
                        Err(e) => Err(e),
                        Ok((rest, r)) => Ok((seq![(k, v)] + rest, n + m + r)),
                    },
                },
            }
        },
        _ => Ok((Seq::empty(), 0)),
    }
}

impl Value {
    /// Appends the encoding of this value to what `ser` has written.
    pub fn serialize(&self, ser: &mut BinarySerializer)
        ensures
            final(ser)@ == old(ser)@ + encode(self@),
        decreases self,
    {
        match self {
            Value::Unit => {},
            Value::Bool(x) => ser.write_bool(*x),
            Value::U8(x) => {
                ser.write_u8(*x);
            },
            Value::U16(x) => ser.write_u16(*x),
            Value::U32(x) => ser.write_u32(*x),
            Value::U64(x) => ser.write_u64(*x),
            Value::U128(x) => ser.write_u128(*x),
            Value::I8(x) => ser.write_i8(*x),
            Value::I16(x) => ser.write_i16(*x),
            Value::I32(x) => ser.write_i32(*x),
            Value::I64(x) => ser.write_i64(*x),
            Value::I128(x) => ser.write_i128(*x),
            Value::Char(x) => ser.write_char(*x),
            Value::Str(s) => ser.write_string(s.as_str()),
            Value::Bytes(b) => ser.write_bytes(b.as_slice()),
            Value::Optional(None) => {
                ser.write_none();
            },
            Value::Optional(Some(inner)) => {
                ser.write_some();
                inner.serialize(ser);
            },
            Value::Sequence(items) => {
                ser.write_len(items.len());
                self.serialize_items(items, ser);
            },
            Value::Tuple(items) => {
                self.serialize_items(items, ser);
            },
            Value::Mapping(entries) => {
                ser.write_len(entries.len());
                let ghost start = ser@;
                let mut i: usize = 0;
                while i < entries.len()
                    invariant
                        i <= entries@.len(),
                        *self == Value::Mapping(*entries),
                        ser@ + encode_entries(self@, i as nat) == start + encode_entries(self@, 0),
                    decreases entries@.len() - i,
                {
                    let ghost before = ser@;
                    entries[i].0.serialize(ser);
                    entries[i].1.serialize(ser);
                    proof {
                        assert(entries_of(self@)[i as int] == (
                            tree_of(entries@[i as int].0),
                            tree_of(entries@[i as int].1),
                        ));
                        assert(ser@ + encode_entries(self@, (i + 1) as nat) =~= before
                            + encode_entries(self@, i as nat));
                    }
                    i = i + 1;
                }
            },
            Value::Variant(index, inner) => {
                ser.write_variant(*index);
                inner.serialize(ser);
            },
        }
    }

    /// Appends the encodings of `items`, the items of this sequence or
    /// tuple, in order.
    fn serialize_items(&self, items: &Vec<Value>, ser: &mut BinarySerializer)
        requires
            *self == Value::Sequence(*items) || *self == Value::Tuple(*items),
        ensures
            final(ser)@ == old(ser)@ + encode_items(self@, 0),
        decreases self, 0nat,
    {
        let mut i: usize = 0;
        while i < items.len()
            invariant
                i <= items@.len(),
                *self == Value::Sequence(*items) || *self == Value::Tuple(*items),
                ser@ + encode_items(self@, i as nat) == old(ser)@ + encode_items(self@, 0),
            decreases items@.len() - i,
        {
            let ghost before = ser@;
            items[i].serialize(ser);
            proof {
                assert(ser@ + encode_items(self@, (i + 1) as nat) =~= before + encode_items(
                    self@,
                    i as nat,
                ));
            }
            i = i + 1;
        }
    }
}

/// The first `n` bytes of a buffer that has as many stand for a number
/// below `256^n`, which is the two's complement form of the signed number
/// it reads as.
pub proof fn lemma_fixed_width(b: Seq<u8>, n: nat)
    ensures
        b.len() >= n ==> le_value(b.take(n as int)) < pow256(n) && -(pow256(n) as int) <= 2
            * dec_int(b.take(n as int)) < pow256(n),
{
    if b.len() >= n {
        lemma_le_value_bound(b.take(n as int));
        lemma_twos_of_pattern(le_value(b.take(n as int)), n);
    }
}

/// `out` is the outcome of reading a value of shape `shape` with a reader
/// that stood as `before` and now stands as `after`: the value at the
/// front and a reader behind it, or the first failure met and a reader
/// somewhere behind where it stood.
pub open spec fn reads_on(
    shape: Shape,
    before: &BinaryDeserializer,
    after: &BinaryDeserializer,
    out: Result<Value, BinarySerializeError>,
) -> bool {
    match out {
        Ok(v) => {
            &&& decode(shape, before.rest(), before.pos()) is Ok
            &&& decode(shape, before.rest(), before.pos())->Ok_0.0 == v@
            &&& after.advanced(before, decode(shape, before.rest(), before.pos())->Ok_0.1)
        },
        Err(e) => decode(shape, before.rest(), before.pos()) == Err::<
            (Tree, nat),
            BinarySerializeError,
        >(e),
    }
}

/// `out` is the outcome of reading a value of shape `shape` with a reader
/// that stood as `before` and now stands as `after`: the value at the
/// front and a reader behind it, or the first failure met and a reader
/// where it stood.
pub open spec fn reads_as(
    shape: Shape,
    before: &BinaryDeserializer,
    after: &BinaryDeserializer,
    out: Result<Value, BinarySerializeError>,
) -> bool {
    &&& reads_on(shape, before, after, out)
    &&& out is Err ==> after.advanced(before, 0)
}

impl Shape {
    /// Reads a value of this shape off the front of what `de` has left. If
    /// the bytes do not read as such a value, nothing is read.
    pub fn deserialize(&self, de: &mut BinaryDeserializer) -> (r: Result<
        Value,
        BinarySerializeError,
    >)
        ensures
            reads_as(*self, old(de), final(de), r),
    {
        let start = *de;
        let r = self.read(de);
        if r.is_err() {
            *de = start;
            proof {
                assert(de.rest().skip(0) =~= de.rest());
            }
        }
        r
    }

    /// Reads a value of this shape off the front of what `de` has left.
    /// On a failure the reader stays where the failure was met.
    fn read(&self, de: &mut BinaryDeserializer) -> (r: Result<Value, BinarySerializeError>)
        ensures
            reads_on(*self, old(de), final(de), r),
        decreases self,
    {
        proof {
            lemma_pow256_values();
            if de.rest().len() >= 1 {
                lemma_le_value_one(de.rest());
            }
            lemma_fixed_width(de.rest(), 1);
            lemma_fixed_width(de.rest(), 2);
            lemma_fixed_width(de.rest(), 4);
            lemma_fixed_width(de.rest(), 8);
            lemma_fixed_width(de.rest(), 16);
            assert(de.rest().skip(0) =~= de.rest());
        }
        match self {
            Shape::Unit => Ok(Value::Unit),
            Shape::Bool => match de.read_bool() {
                Ok(x) => Ok(Value::Bool(x)),
                Err(e) => Err(e),
            },
            Shape::U8 => match de.read_u8() {
                Ok(x) => Ok(Value::U8(x)),
                Err(e) => Err(e),
            },
            Shape::U16 => match de.read_u16() {
                Ok(x) => Ok(Value::U16(x)),
                Err(e) => Err(e),
            },
            Shape::U32 => match de.read_u32() {
                Ok(x) => Ok(Value::U32(x)),
                Err(e) => Err(e),
            },
            Shape::U64 => match de.read_u64() {
                Ok(x) => Ok(Value::U64(x)),
                Err(e) => Err(e),
            },
            Shape::U128 => match de.read_u128() {
                Ok(x) => Ok(Value::U128(x)),
                Err(e) => Err(e),
            },
            Shape::I8 => match de.read_i8() {
                Ok(x) => Ok(Value::I8(x)),
                Err(e) => Err(e),
            },
            Shape::I16 => match de.read_i16() {
                Ok(x) => Ok(Value::I16(x)),
                Err(e) => Err(e),
            },
            Shape::I32 => match de.read_i32() {
                Ok(x) => Ok(Value::I32(x)),
                Err(e) => Err(e),
            },
            Shape::I64 => match de.read_i64() {
                Ok(x) => Ok(Value::I64(x)),
                Err(e) => Err(e),
            },
            Shape::I128 => match de.read_i128() {
                Ok(x) => Ok(Value::I128(x)),
                Err(e) => Err(e),
            },
            Shape::Char => match de.read_char() {
                Ok(x) => Ok(Value::Char(x)),
                Err(e) => Err(e),
            },
            Shape::Str => match de.read_string() {
                Ok(s) => Ok(Value::Str(s)),
                Err(e) => Err(e),
            },
            Shape::Bytes => match de.read_byte_buf() {
                Ok(b) => {
                    let mut bytes: Vec<u8> = Vec::new();
                    append(&mut bytes, b);
                    Ok(Value::Bytes(bytes))
                },
                Err(e) => Err(e),
            },
            Shape::Optional(inner) => match de.read_option_tag() {
                Ok(false) => Ok(Value::Optional(None)),
                Ok(true) => {
                    match inner.read(de) {
                        Ok(v) => {
                            proof {
                                let n = decode(
                                    **inner,
                                    old(de).rest().skip(1),
                                    old(de).pos() + 1,
                                )->Ok_0.1;
                                assert(de.rest() =~= old(de).rest().skip(1 + n as int));
                            }
                            Ok(Value::Optional(Some(Box::new(v))))
                        },
                        Err(e) => Err(e),
                    }
                },
                Err(e) => Err(e),
            },
            Shape::Sequence(_) => {
                let count = match de.read_len() {
                    Ok(count) => count,
                    Err(e) => { return Err(e); },
                };
                match self.deserialize_repeat(count, de) {
                    Ok(items) => {
                        proof {
                            let b = old(de).rest().skip(4);
                            let out = decode_repeat(
                                *self,
                                count as nat,
                                b,
                                old(de).pos() + 4,
                            )->Ok_0;
                            assert(de.rest() =~= old(de).rest().skip(4 + out.1 as int));
                            assert(items_of(Value::Sequence(items)@) =~= out.0);
                        }
                        Ok(Value::Sequence(items))
                    },
                    Err(e) => Err(e),
                }
            },
            Shape::Tuple(_) => {
                match self.deserialize_fields(de) {
                    Ok(items) => {
                        proof {
                            let out = decode_fields(*self, 0, old(de).rest(), old(de).pos())->Ok_0;
                            assert(items_of(Value::Tuple(items)@) =~= out.0);
                        }
                        Ok(Value::Tuple(items))
                    },
                    Err(e) => Err(e),
                }
            },
            Shape::Mapping(_, _) => {
                let count = match de.read_len() {
                    Ok(count) => count,
                    Err(e) => { return Err(e); },
                };
                match self.deserialize_entries(count, de) {
                    Ok(entries) => {
                        proof {
                            let b = old(de).rest().skip(4);
                            let out = decode_entries(
                                *self,
                                count as nat,
                                b,
                                old(de).pos() + 4,
                            )->Ok_0;
                            assert(de.rest() =~= old(de).rest().skip(4 + out.1 as int));
                            assert(entries_of(Value::Mapping(entries)@) =~= out.0);
                        }
                        Ok(Value::Mapping(entries))
                    },
                    Err(e) => Err(e),
                }
            },
            Shape::Enum(variants) => {
                let index = match de.read_variant() {
                    Ok(index) => index,
                    Err(e) => { return Err(e); },
                };
                if (index as usize) < variants.len() {
                    match variants[index as usize].read(de) {
                        Ok(v) => {
                            proof {
                                let n = decode(
                                    variants@[index as int],
                                    old(de).rest().skip(4),
                                    old(de).pos() + 4,
                                )->Ok_0.1;
                                assert(de.rest() =~= old(de).rest().skip(4 + n as int));
                            }
                            Ok(Value::Variant(index, Box::new(v)))
                        },
                        Err(e) => Err(e),
                    }
                } else {
                    Err(BinarySerializeError { kind: ErrorKind::UnknownVariant { index } })
                }
            },
        }
    }

    /// Reads `count` values of the element shape of this sequence shape.
    fn deserialize_repeat(&self, count: usize, de: &mut BinaryDeserializer) -> (r: Result<
        Vec<Value>,
        BinarySerializeError,
    >)
        requires
            *self is Sequence,
        ensures
            match r {
                Ok(items) => {
                    let out = decode_repeat(*self, count as nat, old(de).rest(), old(de).pos());
                    &&& out is Ok
                    &&& out->Ok_0.0.len() == items@.len()
                    &&& forall|j: int|
                        0 <= j < items@.len() ==> out->Ok_0.0[j] == tree_of(#[trigger] items@[j])
                    &&& final(de).advanced(old(de), out->Ok_0.1)
                },
                Err(e) => decode_repeat(*self, count as nat, old(de).rest(), old(de).pos())
                    == Err::<(Seq<Tree>, nat), BinarySerializeError>(e),
            },
        decreases self, 0nat,
    {
        let elem: &Shape = match self {
            Shape::Sequence(elem) => elem,
            _ => { return Ok(Vec::new()); },
        };
        let ghost input = de.rest();
        let ghost origin = de.pos();
        let ghost whole = decode_repeat(*self, count as nat, input, origin);
        let ghost mut used: nat = 0;
        let ghost mut trees: Seq<Tree> = Seq::empty();
        let mut items: Vec<Value> = Vec::new();
        let mut i: usize = 0;
        while i < count
            invariant
                i <= count,
                *self == Shape::Sequence(Box::new(*elem)),
                input == old(de).rest(),
                origin == old(de).pos(),
                used <= input.len(),
                de.rest() == input.skip(used as int),
                de.pos() == origin + used,
                trees.len() == items@.len(),
                forall|j: int| 0 <= j < items@.len() ==> trees[j] == tree_of(#[trigger] items@[j]),
                whole == decode_repeat(*self, count as nat, input, origin),
                whole == match decode_repeat(
                    *self,
                    (count - i) as nat,
                    input.skip(used as int),
                    origin + used,
                ) {
                    Ok((rest, m)) => Ok::<(Seq<Tree>, nat), BinarySerializeError>(
                        (trees + rest, used + m),
                    ),
                    Err(e) => Err(e),
                },
            decreases count - i,
        {
            let ghost cur = de.rest();
            match elem.read(de) {
                Err(e) => { return Err(e); },
                Ok(v) => {
                    proof {
                        let step = decode(*elem, cur, origin + used)->Ok_0;
                        let next = decode_repeat(
                            *self,
                            (count - i - 1) as nat,
                            cur.skip(step.1 as int),
                            origin + used + step.1,
                        );
                        assert(cur.skip(step.1 as int) =~= input.skip((used + step.1) as int));
                        match next {
                            Ok((rest, m)) => {
                                assert(trees.push(step.0) + rest =~= trees + (seq![step.0] + rest));
                            },
                            Err(_) => {},
                        }
                        trees = trees.push(step.0);
                        used = used + step.1;
                    }
                    items.push(v);
                    i = i + 1;
                },
            }
        }
        Ok(items)
    }

    /// Reads the fields of this tuple shape in order.
    fn deserialize_fields(&self, de: &mut BinaryDeserializer) -> (r: Result<
        Vec<Value>,
        BinarySerializeError,
    >)
        requires
            *self is Tuple,
        ensures
            match r {
                Ok(items) => {
                    let out = decode_fields(*self, 0, old(de).rest(), old(de).pos());
                    &&& out is Ok
                    &&& out->Ok_0.0.len() == items@.len()
                    &&& forall|j: int|
                        0 <= j < items@.len() ==> out->Ok_0.0[j] == tree_of(#[trigger] items@[j])
                    &&& final(de).advanced(old(de), out->Ok_0.1)
                },
                Err(e) => decode_fields(*self, 0, old(de).rest(), old(de).pos()) == Err::<
                    (Seq<Tree>, nat),
                    BinarySerializeError,
                >(e),
            },
        decreases self, 0nat,
    {
        let fields: &Vec<Shape> = match self {
            Shape::Tuple(fields) => fields,
            _ => { return Ok(Vec::new()); },
        };
        let ghost input = de.rest();
        let ghost origin = de.pos();
        let ghost whole = decode_fields(*self, 0, input, origin);
        let ghost mut used: nat = 0;
        let ghost mut trees: Seq<Tree> = Seq::empty();
        let mut items: Vec<Value> = Vec::new();
        let mut i: usize = 0;
        proof {
            assert(input.skip(0) =~= input);
        }
        while i < fields.len()
            invariant
                i <= fields@.len(),
                *self == Shape::Tuple(*fields),
                input == old(de).rest(),
                origin == old(de).pos(),
                used <= input.len(),
                de.rest() == input.skip(used as int),
                de.pos() == origin + used,
                trees.len() == items@.len(),
                forall|j: int| 0 <= j < items@.len() ==> trees[j] == tree_of(#[trigger] items@[j]),
                whole == decode_fields(*self, 0, input, origin),
                whole == match decode_fields(
                    *self,
                    i as nat,
                    input.skip(used as int),
                    origin + used,
                ) {
                    Ok((rest, m)) => Ok::<(Seq<Tree>, nat), BinarySerializeError>(
                        (trees + rest, used + m),
                    ),
                    Err(e) => Err(e),
                },
            decreases fields@.len() - i,
        {
            let ghost cur = de.rest();
            match fields[i].read(de) {
                Err(e) => { return Err(e); },
                Ok(v) => {
                    proof {
                        let step = decode(fields@[i as int], cur, origin + used)->Ok_0;
                        let next = decode_fields(
                            *self,
                            (i + 1) as nat,
                            cur.skip(step.1 as int),
                            origin + used + step.1,
                        );
                        assert(cur.skip(step.1 as int) =~= input.skip((used + step.1) as int));
                        match next {
                            Ok((rest, m)) => {
                                assert(trees.push(step.0) + rest =~= trees + (seq![step.0] + rest));
                            },
                            Err(_) => {},
                        }
                        trees = trees.push(step.0);
                        used = used + step.1;
                    }
                    items.push(v);
                    i = i + 1;
                },
            }
        }
        Ok(items)
    }

    /// Reads `count` entries of this mapping shape, key then value.
    fn deserialize_entries(&self, count: usize, de: &mut BinaryDeserializer) -> (r: Result<
        Vec<(Value, Value)>,
        BinarySerializeError,
    >)
        requires
            *self is Mapping,
        ensures
            match r {
                Ok(entries) => {
                    let out = decode_entries(*self, count as nat, old(de).rest(), old(de).pos());
                    &&& out is Ok
                    &&& out->Ok_0.0.len() == entries@.len()
                    &&& forall|j: int|
                        0 <= j < entries@.len() ==> out->Ok_0.0[j] == (
                            tree_of((#[trigger] entries@[j]).0),
                            tree_of(entries@[j].1),
                        )
                    &&& final(de).advanced(old(de), out->Ok_0.1)
                },
                Err(e) => decode_entries(*self, count as nat, old(de).rest(), old(de).pos())
                    == Err::<(Seq<(Tree, Tree)>, nat), BinarySerializeError>(e),
            },
        decreases self, 0nat,
    {
        let (key, value): (&Shape, &Shape) = match self {
            Shape::Mapping(key, value) => (key, value),
            _ => { return Ok(Vec::new()); },
        };
        let ghost input = de.rest();
        let ghost origin = de.pos();
        let ghost whole = decode_entries(*self, count as nat, input, origin);
        let ghost mut used: nat = 0;
        let ghost mut trees: Seq<(Tree, Tree)> = Seq::empty();
        let mut entries: Vec<(Value, Value)> = Vec::new();
        let mut i: usize = 0;
        while i < count
            invariant
                i <= count,
                *self == Shape::Mapping(Box::new(*key), Box::new(*value)),
                input == old(de).rest(),
                origin == old(de).pos(),
                used <= input.len(),
                de.rest() == input.skip(used as int),
                de.pos() == origin + used,
                trees.len() == entries@.len(),
                forall|j: int|
                    0 <= j < entries@.len() ==> trees[j] == (
                        tree_of((#[trigger] entries@[j]).0),
                        tree_of(entries@[j].1),
                    ),
                whole == decode_entries(*self, count as nat, input, origin),
                whole == match decode_entries(
                    *self,
                    (count - i) as nat,
                    input.skip(used as int),
                    origin + used,
                ) {
                    Ok((rest, m)) => Ok::<(Seq<(Tree, Tree)>, nat), BinarySerializeError>(
                        (trees + rest, used + m),
                    ),
                    Err(e) => Err(e),
                },
            decreases count - i,
        {
            let ghost cur = de.rest();
            let k = match key.read(de) {
                Err(e) => { return Err(e); },
                Ok(k) => k,
            };
            let v = match value.read(de) {
                Err(e) => { return Err(e); },
                Ok(v) => v,
            };
            proof {
                let first = decode(*key, cur, origin + used)->Ok_0;
                let second = decode(
                    *value,
                    cur.skip(first.1 as int),
                    origin + used + first.1,
                )->Ok_0;
                let taken = first.1 + second.1;
                let next = decode_entries(
                    *self,
                    (count - i - 1) as nat,
                    cur.skip(first.1 as int).skip(second.1 as int),
                    origin + used + first.1 + second.1,
                );
                assert(cur.skip(first.1 as int).skip(second.1 as int) =~= input.skip(
                    (used + taken) as int,
                ));
                match next {
                    Ok((rest, m)) => {
                        assert(trees.push((first.0, second.0)) + rest =~= trees + (seq![
                            (first.0, second.0),
                        ] + rest));
                    },
                    Err(_) => {},
                }
                trees = trees.push((first.0, second.0));
                used = used + taken;
            }
            entries.push((k, v));
            i = i + 1;
        }
        Ok(entries)
    }
}

/// `v` is a value of shape `shape` that the encoding can carry without
/// loss: its characters are at most U+00FF, and its texts, blobs,
/// sequences and mappings are shorter than 2^32.
pub open spec fn fits(v: Tree, shape: Shape) -> bool
    decreases v,
{
    match (shape, v) {
        (Shape::Unit, Tree::Unit) => true,
        (Shape::Bool, Tree::Bool(_)) => true,
        (Shape::U8, Tree::U8(_)) => true,
        (Shape::U16, Tree::U16(_)) => true,
        (Shape::U32, Tree::U32(_)) => true,
        (Shape::U64, Tree::U64(_)) => true,
        (Shape::U128, Tree::U128(_)) => true,
        (Shape::I8, Tree::I8(_)) => true,
        (Shape::I16, Tree::I16(_)) => true,
        (Shape::I32, Tree::I32(_)) => true,
        (Shape::I64, Tree::I64(_)) => true,
        (Shape::I128, Tree::I128(_)) => true,
        (Shape::Char, Tree::Char(c)) => c as u32 <= 0xFF,
        (Shape::Str, Tree::Str(s)) => encode_utf8(s).len() < 0x1_0000_0000,
        (Shape::Bytes, Tree::Bytes(b)) => b.len() < 0x1_0000_0000,
        (Shape::Optional(_), Tree::Optional(None)) => true,
        (Shape::Optional(inner), Tree::Optional(Some(x))) => fits(*x, *inner),
        (Shape::Sequence(elem), Tree::Sequence(items)) => {
            &&& items.len() < 0x1_0000_0000
            &&& forall|i: int| 0 <= i < items.len() ==> fits(#[trigger] items[i], *elem)
        },
        (Shape::Tuple(fields), Tree::Tuple(items)) => {
            &&& items.len() == fields@.len()
            &&& forall|i: int| 0 <= i < items.len() ==> fits(#[trigger] items[i], fields@[i])
        },
        (Shape::Mapping(key, value), Tree::Mapping(entries)) => {
            &&& entries.len() < 0x1_0000_0000
            &&& forall|i: int|
                0 <= i < entries.len() ==> fits((#[trigger] entries[i]).0, *key) && fits(
                    entries[i].1,
                    *value,
                )
        },
        (Shape::Enum(variants), Tree::Variant(index, x)) => {
            &&& index < variants@.len()
            &&& fits(*x, variants@[index as int])
        },
        _ => false,
    }
}

/// The first `n` bytes of `le_bytes(x, n)` followed by anything stand for
/// `x`, if `x` fits in `n` bytes.
proof fn lemma_uint_front(x: nat, n: nat, tail: Seq<u8>)
    requires
        x < pow256(n),
    ensures
        (le_bytes(x, n) + tail).len() >= n,
        (le_bytes(x, n) + tail).take(n as int) == le_bytes(x, n),
        le_value((le_bytes(x, n) + tail).take(n as int)) == x,
        (le_bytes(x, n) + tail).skip(n as int) == tail,
{
    lemma_le_bytes_len(x, n);
    lemma_le_value_of_bytes(x, n);
}

/// The first `n` bytes of `enc_int(x, n)` followed by anything read as
/// `x`, if `x` is in the range of `n` bytes.
proof fn lemma_sint_front(x: int, n: nat, tail: Seq<u8>)
    requires
        -(pow256(n) as int) <= 2 * x < pow256(n),
    ensures
        (enc_int(x, n) + tail).len() >= n,
        dec_int((enc_int(x, n) + tail).take(n as int)) == x,
        enc_int(x, n).len() == n,
{
    lemma_int_round_trip(x, n);
    assert((enc_int(x, n) + tail).take(n as int) =~= enc_int(x, n));
}

/// A value that fits its shape reads back as it was written, whatever
/// follows it in the buffer and wherever it stands.
pub proof fn lemma_value_round_trip(v: Tree, shape: Shape, tail: Seq<u8>, pos: nat)
    requires
        fits(v, shape),
    ensures
        decode(shape, encode(v) + tail, pos) == Ok::<(Tree, nat), BinarySerializeError>(
            (v, encode(v).len()),
        ),
    decreases v, 1nat, 0nat,
{
    let b = encode(v) + tail;
    lemma_pow256_values();
    match (shape, v) {
        (Shape::Unit, Tree::Unit) => {},
        (Shape::Bool, Tree::Bool(x)) => {
            lemma_le_value_one(b);
        },
        (Shape::U8, Tree::U8(x)) => {
            lemma_le_value_one(b);
        },
        (Shape::U16, Tree::U16(x)) => {
            lemma_uint_front(x as nat, 2, tail);
        },
        (Shape::U32, Tree::U32(x)) => {
            lemma_uint_front(x as nat, 4, tail);
        },
        (Shape::U64, Tree::U64(x)) => {
            lemma_uint_front(x as nat, 8, tail);
        },
        (Shape::U128, Tree::U128(x)) => {
            lemma_uint_front(x as nat, 16, tail);
        },
        (Shape::I8, Tree::I8(x)) => {
            lemma_sint_front(x as int, 1, tail);
        },
        (Shape::I16, Tree::I16(x)) => {
            lemma_sint_front(x as int, 2, tail);
        },
        (Shape::I32, Tree::I32(x)) => {
            lemma_sint_front(x as int, 4, tail);
        },
        (Shape::I64, Tree::I64(x)) => {
            lemma_sint_front(x as int, 8, tail);
        },
        (Shape::I128, Tree::I128(x)) => {
            lemma_sint_front(x as int, 16, tail);
        },
        (Shape::Char, Tree::Char(c)) => {
            lemma_le_value_one(b);
            lemma_char_round_trip(c);
        },
        (Shape::Str, Tree::Str(s)) => {
            lemma_str_round_trip(s, tail);
        },
        (Shape::Bytes, Tree::Bytes(bytes)) => {
            lemma_bytes_round_trip(bytes, tail);
        },
        (Shape::Optional(_), Tree::Optional(None)) => {
            lemma_le_value_one(b);
        },
        (Shape::Optional(inner), Tree::Optional(Some(x))) => {
            lemma_le_value_one(b);
            lemma_value_round_trip(*x, *inner, tail, pos + 1);
            assert(b.skip(1) =~= encode(*x) + tail);
        },
        (Shape::Sequence(_), Tree::Sequence(items)) => {
            lemma_uint_front(items.len(), 4, encode_items(v, 0) + tail);
            assert(b =~= le_bytes(items.len(), 4) + (encode_items(v, 0) + tail));
            lemma_items_round_trip(v, shape, 0, tail, pos + 4);
            assert(items.skip(0) =~= items);
        },
        (Shape::Tuple(_), Tree::Tuple(items)) => {
            lemma_fields_round_trip(v, shape, 0, tail, pos);
            assert(items.skip(0) =~= items);
        },
        (Shape::Mapping(_, _), Tree::Mapping(entries)) => {
            lemma_uint_front(entries.len(), 4, encode_entries(v, 0) + tail);
            assert(b =~= le_bytes(entries.len(), 4) + (encode_entries(v, 0) + tail));
            lemma_entries_round_trip(v, shape, 0, tail, pos + 4);
            assert(entries.skip(0) =~= entries);
        },
        (Shape::Enum(variants), Tree::Variant(index, x)) => {
            lemma_uint_front(index as nat, 4, encode(*x) + tail);
            assert(b =~= le_bytes(index as nat, 4) + (encode(*x) + tail));
            lemma_value_round_trip(*x, variants@[index as int], tail, pos + 4);
        },
        _ => {},
    }
}

/// The items of a sequence from the `from`-th on read back as written.
proof fn lemma_items_round_trip(v: Tree, shape: Shape, from: nat, tail: Seq<u8>, pos: nat)
    requires
        v is Sequence,
        fits(v, shape),
        from <= items_of(v).len(),
    ensures
        decode_repeat(
            shape,
            (items_of(v).len() - from) as nat,
            encode_items(v, from) + tail,
            pos,
        ) == Ok::<(Seq<Tree>, nat), BinarySerializeError>(
            (items_of(v).skip(from as int), encode_items(v, from).len()),
        ),
    decreases v, 0nat, items_of(v).len() - from,
{
    let items = items_of(v);
    if from < items.len() {
        let elem = match shape {
            Shape::Sequence(elem) => *elem,
            _ => shape,
        };
        let x = items[from as int];
        let n = encode(x).len();
        let after = encode_items(v, from + 1) + tail;
        let b = encode_items(v, from) + tail;
        lemma_value_round_trip(x, elem, after, pos);
        assert(b =~= encode(x) + after);
        assert(b.skip(n as int) =~= after);
        lemma_items_round_trip(v, shape, from + 1, tail, pos + n);
        assert(seq![x] + items.skip(from + 1 as int) =~= items.skip(from as int));
    } else {
        assert(items.skip(from as int) =~= Seq::<Tree>::empty());
    }
}

/// The fields of a tuple from the `from`-th on read back as written.
proof fn lemma_fields_round_trip(v: Tree, shape: Shape, from: nat, tail: Seq<u8>, pos: nat)
    requires
        v is Tuple,
        fits(v, shape),
        from <= items_of(v).len(),
    ensures
        decode_fields(shape, from, encode_items(v, from) + tail, pos) == Ok::<
            (Seq<Tree>, nat),
            BinarySerializeError,
        >((items_of(v).skip(from as int), encode_items(v, from).len())),
    decreases v, 0nat, items_of(v).len() - from,
{
    let items = items_of(v);
    if from < items.len() {
        let x = items[from as int];
        let n = encode(x).len();
        let after = encode_items(v, from + 1) + tail;
        let b = encode_items(v, from) + tail;
        lemma_value_round_trip(x, shapes_of(shape)[from as int], after, pos);
        assert(b =~= encode(x) + after);
        assert(b.skip(n as int) =~= after);
        lemma_fields_round_trip(v, shape, from + 1, tail, pos + n);
        assert(seq![x] + items.skip(from + 1 as int) =~= items.skip(from as int));
    } else {
        assert(items.skip(from as int) =~= Seq::<Tree>::empty());
    }
}

/// The entries of a mapping from the `from`-th on read back as written.
proof fn lemma_entries_round_trip(v: Tree, shape: Shape, from: nat, tail: Seq<u8>, pos: nat)
    requires
        v is Mapping,
        fits(v, shape),
        from <= entries_of(v).len(),
    ensures
        decode_entries(
            shape,
            (entries_of(v).len() - from) as nat,
            encode_entries(v, from) + tail,
            pos,
        ) == Ok::<(Seq<(Tree, Tree)>, nat), BinarySerializeError>(
            (entries_of(v).skip(from as int), encode_entries(v, from).len()),
        ),
    decreases v, 0nat, entries_of(v).len() - from,
{
    let entries = entries_of(v);
    if from < entries.len() {
        let (key, value) = match shape {
            Shape::Mapping(key, value) => (*key, *value),
            _ => (shape, shape),
        };
        let (k, x) = entries[from as int];
        let n = encode(k).len();
        let m = encode(x).len();
        let after = encode_entries(v, from + 1) + tail;
        let b = encode_entries(v, from) + tail;
        lemma_value_round_trip(k, key, encode(x) + after, pos);
        lemma_value_round_trip(x, value, after, pos + n);
        assert(b =~= encode(k) + (encode(x) + after));
        assert(b.skip(n as int) =~= encode(x) + after);
        assert(b.skip(n as int).skip(m as int) =~= after);
        lemma_entries_round_trip(v, shape, from + 1, tail, pos + n + m);
        assert(seq![(k, x)] + entries.skip(from + 1 as int) =~= entries.skip(from as int));
    } else {
        assert(entries.skip(from as int) =~= Seq::<(Tree, Tree)>::empty());
    }
}

} // verus!
