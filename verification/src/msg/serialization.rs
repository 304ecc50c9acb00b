//! The binary codec: how each kind of value is laid out in bytes, a writer
//! that appends such encodings to a buffer and a reader that takes them off
//! the front of one.
//!
//! The encoding carries no field names and no type tags. A composite value
//! is the encodings of its parts in declaration order, so writer and reader
//! have to agree on the shape beforehand.
//!
//! | Value            | Bytes                                                   |
//! |------------------|---------------------------------------------------------|
//! | truth value      | one byte, 0 or 1                                        |
//! | integer          | little-endian, as wide as its type; signed in two's complement |
//! | IEEE number      | its bit pattern as an unsigned integer of the same width |
//! | character        | one byte, the code point modulo 256                     |
//! | text             | four-byte length, then UTF-8                            |
//! | byte blob        | four-byte length, then the bytes                        |
//! | optional value   | one byte 0, or one byte 1 and the value                 |
//! | sequence         | four-byte count, then the elements                      |
//! | tuple, record    | the fields in declaration order                         |
//! | mapping          | four-byte count, then key and value in turn             |
//! | variant          | four-byte index, then the variant's fields              |

use vstd::prelude::*;
use vstd::string::*;
use vstd::utf8::*;
use crate::msg::wire::{
    from_twos, le_bytes, le_value, lemma_le_bytes_len, lemma_le_value_bound,
    lemma_le_value_of_bytes, lemma_pow256_values, lemma_twos_round_trip, pow256, push_le, to_twos,
    value_le,
};

verus! {

/// Why an encode or decode step failed.
#[derive(Debug, Clone, Copy, PartialEq, Eq)]
pub enum ErrorKind {
    /// The buffer ended before a field did: at offset `pos` of the section
    /// being read (a buffer, a payload, a parameter record or a parameter's
    /// value), `need` bytes were asked for and only `have` were left.
    UnexpectedEof { need: usize, have: usize, pos: usize },
    /// The presence byte of an optional value was neither 0 nor 1.
    InvalidOptionTag { tag: u8 },
    /// The bytes of a text field are not UTF-8.
    InvalidUtf8,
    /// A sequence was to be written whose length is not known up front.
    UnknownLength,
    /// A value was to be read without saying what shape it has.
    ShapeRequired,
    /// No parameter with this identifier is registered.
    UnsupportedParam { id: u16 },
    /// A stored checksum differs from the one computed over the bytes it
    /// guards.
    ChecksumMismatch { stored: u16, computed: u16 },
    /// A payload of `len` bytes before its checksum is, with the checksum,
    /// longer than the 16-bit length field of the header can say.
    TooLong { len: usize },
    /// A variant index names none of the variants of the expected type.
    UnknownVariant { index: u32 },
}

/// The failure value of every encode and decode operation.
#[derive(Debug, Clone, Copy, PartialEq, Eq)]
pub struct BinarySerializeError {
    pub kind: ErrorKind,
}

impl BinarySerializeError {
    /// How many bytes the buffer fell short by, if it did.
    pub open spec fn spec_missing(self) -> nat {
        match self.kind {
            ErrorKind::UnexpectedEof { need, have, pos } => if need >= have {
                (need - have) as nat
            } else {
                0
            },
            _ => 0,
        }
    }

    /// How many bytes the buffer fell short by: zero for every failure but
    /// a truncation.
    pub fn missing(&self) -> (n: usize)
        ensures
            n == self.spec_missing(),
    {
        match self.kind {
            ErrorKind::UnexpectedEof { need, have, pos: _ } => if need >= have {
                need - have
            } else {
                0
            },
            _ => 0,
        }
    }
}

/// A signed integer in `width` bytes: its two's complement form, least
/// significant byte first.
pub open spec fn enc_int(v: int, width: nat) -> Seq<u8> {
    le_bytes(to_twos(v, width), width)
}

/// One byte: 1 for true, 0 for false.
pub open spec fn enc_bool(v: bool) -> Seq<u8> {
    seq![if v { 1u8 } else { 0u8 }]
}

/// A character as one byte: its code point modulo 256.
pub open spec fn enc_char(c: char) -> Seq<u8> {
    seq![((c as u32) % 256) as u8]
}

/// Raw bytes behind a four-byte length.
pub open spec fn enc_bytes(b: Seq<u8>) -> Seq<u8> {
    le_bytes(b.len(), 4) + b
}

/// Text as its UTF-8 bytes behind a four-byte length.
pub open spec fn enc_str(s: Seq<char>) -> Seq<u8> {
    enc_bytes(encode_utf8(s))
}

/// Appends `bytes` to `out`.
pub fn append(out: &mut Vec<u8>, bytes: &[u8])
    ensures
        final(out)@ == old(out)@ + bytes@,
{
    let mut i: usize = 0;
    while i < bytes.len()
        invariant
            i <= bytes@.len(),
            out@ == old(out)@ + bytes@.subrange(0, i as int),
        decreases bytes@.len() - i,
    {
        out.push(bytes[i]);
        i = i + 1;
    }
}

/// Appends encodings to a growing byte buffer.
pub struct BinarySerializer {
    output: Vec<u8>,
}

impl View for BinarySerializer {
    type V = Seq<u8>;

    /// The bytes written so far.
    closed spec fn view(&self) -> Seq<u8> {
        self.output@
    }
}

impl BinarySerializer {
    /// A writer with nothing written.
    pub fn new() -> (s: Self)
        ensures
            s@ == Seq::<u8>::empty(),
    {
        Self { output: Vec::new() }
    }

    /// The bytes written, in order.
    pub fn into_bytes(self) -> (bytes: Vec<u8>)
        ensures
            bytes@ == self@,
    {
        self.output
    }

    /// How many bytes have been written.
    pub fn len(&self) -> (n: usize)
        ensures
            n == self@.len(),
    {
        self.output.len()
    }

    /// One byte as it is.
    pub fn write_u8(&mut self, value: u8)
        ensures
            final(self)@ == old(self)@.push(value),
    {
        self.output.push(value);
    }

    /// Two bytes, least significant first.
    pub fn write_u16(&mut self, value: u16)
        ensures
            final(self)@ == old(self)@ + le_bytes(value as nat, 2),
    {
        push_le(&mut self.output, value as u128, 2);
    }

    /// Four bytes, least significant first.
    pub fn write_u32(&mut self, value: u32)
        ensures
            final(self)@ == old(self)@ + le_bytes(value as nat, 4),
    {
        push_le(&mut self.output, value as u128, 4);
    }

    /// Eight bytes, least significant first.
    pub fn write_u64(&mut self, value: u64)
        ensures
            final(self)@ == old(self)@ + le_bytes(value as nat, 8),
    {
        push_le(&mut self.output, value as u128, 8);
    }

    /// Sixteen bytes, least significant first.
    pub fn write_u128(&mut self, value: u128)
        ensures
            final(self)@ == old(self)@ + le_bytes(value as nat, 16),
    {
        push_le(&mut self.output, value, 16);
    }

    /// One byte in two's complement.
    pub fn write_i8(&mut self, value: i8)
        ensures
            final(self)@ == old(self)@ + enc_int(value as int, 1),
    {
        proof {
            lemma_pow256_values();
        }
        let x: u8 = if value >= 0 {
            value as u8
        } else {
            (value as i16 + 0x100) as u8
        };
        push_le(&mut self.output, x as u128, 1);
    }

    /// Two bytes in two's complement, least significant first.
    pub fn write_i16(&mut self, value: i16)
        ensures
            final(self)@ == old(self)@ + enc_int(value as int, 2),
    {
        proof {
            lemma_pow256_values();
        }
        let x: u16 = if value >= 0 {
            value as u16
        } else {
            (value as i32 + 0x1_0000) as u16
        };
        push_le(&mut self.output, x as u128, 2);
    }

    /// Four bytes in two's complement, least significant first.
    pub fn write_i32(&mut self, value: i32)
        ensures
            final(self)@ == old(self)@ + enc_int(value as int, 4),
    {
        proof {
            lemma_pow256_values();
        }
        let x: u32 = if value >= 0 {
            value as u32
        } else {
            (value as i64 + 0x1_0000_0000) as u32
        };
        push_le(&mut self.output, x as u128, 4);
    }

    /// Eight bytes in two's complement, least significant first.
    pub fn write_i64(&mut self, value: i64)
        ensures
            final(self)@ == old(self)@ + enc_int(value as int, 8),
    {
        proof {
            lemma_pow256_values();
        }
        let x: u64 = if value >= 0 {
            value as u64
        } else {
            (value as i128 + 0x1_0000_0000_0000_0000) as u64
        };
        push_le(&mut self.output, x as u128, 8);
    }

    /// Sixteen bytes in two's complement, least significant first.
    pub fn write_i128(&mut self, value: i128)
        ensures
            final(self)@ == old(self)@ + enc_int(value as int, 16),
    {
        proof {
            lemma_pow256_values();
        }
        let x: u128 = if value >= 0 {
            value as u128
        } else {
            ((value + i128::MAX) + 1) as u128 + 0x8000_0000_0000_0000_0000_0000_0000_0000
        };
        push_le(&mut self.output, x, 16);
    }

    /// One byte: 1 for true, 0 for false.
    pub fn write_bool(&mut self, value: bool)
        ensures
            final(self)@ == old(self)@ + enc_bool(value),
    {
        self.output.push(if value { 1 } else { 0 });
    }

    /// One byte: the code point modulo 256. Characters beyond U+00FF do not
    /// survive.
    pub fn write_char(&mut self, value: char)
        ensures
            final(self)@ == old(self)@ + enc_char(value),
    {
        let b: u8 = ((value as u32) % 256) as u8;
        self.output.push(b);
    }

    /// A length or count in four bytes. Lengths of 2^32 and more are
    /// written modulo 2^32.
    pub fn write_len(&mut self, len: usize)
        ensures
            final(self)@ == old(self)@ + le_bytes(len as nat, 4),
    {
        push_le(&mut self.output, len as u128, 4);
    }

    /// Bytes as they are, with no length in front.
    pub fn write_raw(&mut self, bytes: &[u8])
        ensures
            final(self)@ == old(self)@ + bytes@,
    {
        append(&mut self.output, bytes);
    }

    /// A byte blob: its length in four bytes, then the bytes.
    pub fn write_bytes(&mut self, bytes: &[u8])
        ensures
            final(self)@ == old(self)@ + enc_bytes(bytes@),
    {
        self.write_len(bytes.len());
        self.write_raw(bytes);
    }

    /// Text: the length of its UTF-8 form in four bytes, then that form.
    pub fn write_string(&mut self, s: &str)
        ensures
            final(self)@ == old(self)@ + enc_str(s@),
    {
        self.write_bytes(s.as_bytes());
    }

    /// The presence byte of an absent optional value.
    pub fn write_none(&mut self)
        ensures
            final(self)@ == old(self)@.push(0u8),
    {
        self.write_u8(0);
    }

    /// The presence byte of a present optional value; the value's own
    /// encoding follows it.
    pub fn write_some(&mut self)
        ensures
            final(self)@ == old(self)@.push(1u8),
    {
        self.write_u8(1);
    }

    /// The element count that opens a sequence. A sequence of unknown
    /// length cannot be written: nothing is appended then.
    pub fn begin_seq(&mut self, len: Option<usize>) -> (r: Result<(), BinarySerializeError>)
        ensures
            match len {
                Some(n) => r.is_ok() && final(self)@ == old(self)@ + le_bytes(n as nat, 4),
                None => r == Err::<(), BinarySerializeError>(
                    BinarySerializeError { kind: ErrorKind::UnknownLength },
                ) && final(self)@ == old(self)@,
            },
    {
        match len {
            Some(n) => {
                self.write_len(n);
                Ok(())
            },
            None => Err(BinarySerializeError { kind: ErrorKind::UnknownLength }),
        }
    }

    /// The entry count that opens a key-value mapping; an unknown count is
    /// written as zero.
    pub fn begin_map(&mut self, len: Option<usize>)
        ensures
            final(self)@ == old(self)@ + le_bytes(
                match len {
                    Some(n) => n as nat,
                    None => 0,
                },
                4,
            ),
    {
        match len {
            Some(n) => self.write_len(n),
            None => self.write_len(0),
        }
    }

    /// The position of a variant among those of its type, in four bytes;
    /// the variant's fields follow in declaration order.
    pub fn write_variant(&mut self, variant_index: u32)
        ensures
            final(self)@ == old(self)@ + le_bytes(variant_index as nat, 4),
    {
        self.write_u32(variant_index);
    }
}

/// Calls `core::str::from_utf8`. Trusted: it accepts exactly the byte
/// strings that are well-formed UTF-8, and the text it returns has those
/// bytes as its UTF-8 form.
#[verifier::external_body]
fn text_of_utf8(bytes: &[u8]) -> (r: Option<&str>)
    ensures
        r is Some <==> valid_utf8(bytes@),
        r matches Some(s) ==> s.spec_bytes() == bytes@,
{
    match core::str::from_utf8(bytes) {
        Ok(s) => Some(s),
        Err(_) => None,
    }
}

/// The error for a read of `need` bytes at offset `pos` with `have` bytes
/// left.
pub open spec fn eof_error(pos: nat, need: nat, have: nat) -> BinarySerializeError {
    BinarySerializeError {
        kind: ErrorKind::UnexpectedEof {
            need: need as usize,
            have: have as usize,
            pos: pos as usize,
        },
    }
}

/// The signed number that a little-endian two's complement byte string
/// stands for.
pub open spec fn dec_int(s: Seq<u8>) -> int {
    from_twos(le_value(s), s.len())
}

/// The length that a length-prefixed blob at the front of `s` declares.
pub open spec fn blob_len(s: Seq<u8>) -> nat {
    le_value(s.take(4))
}

/// The bytes of a length-prefixed blob at the front of `s`.
pub open spec fn blob_body(s: Seq<u8>) -> Seq<u8> {
    s.subrange(4, 4 + blob_len(s) as int)
}

/// Takes encodings off the front of a borrowed byte buffer.
#[derive(Clone, Copy)]
pub struct BinaryDeserializer<'a> {
    input: &'a [u8],
    pos: usize,
}

impl<'a> BinaryDeserializer<'a> {
    #[verifier::type_invariant]
    spec fn within(self) -> bool {
        self.pos <= self.input@.len()
    }

    /// The bytes not yet read.
    pub closed spec fn rest(&self) -> Seq<u8> {
        self.input@.subrange(self.pos as int, self.input@.len() as int)
    }

    /// How many bytes have been read.
    pub closed spec fn pos(&self) -> nat {
        self.pos as nat
    }

    /// This reader is `before` after `n` more bytes were read.
    pub open spec fn advanced(&self, before: &Self, n: nat) -> bool {
        &&& n <= before.rest().len()
        &&& self.rest() == before.rest().skip(n as int)
        &&& self.pos() == before.pos() + n
    }

    /// A reader at the start of `input`.
    pub fn new(input: &'a [u8]) -> (d: Self)
        ensures
            d.rest() == input@,
            d.pos() == 0,
    {
        Self { input, pos: 0 }
    }

    /// How many bytes have been read.
    pub fn position(&self) -> (p: usize)
        ensures
            p == self.pos(),
    {
        self.pos
    }

    /// How many bytes are left.
    pub fn remaining(&self) -> (n: usize)
        ensures
            n == self.rest().len(),
    {
        proof {
            use_type_invariant(self);
        }
        self.input.len() - self.pos
    }

    /// Whether `n` more bytes can be read.
    pub fn ensure_available(&self, n: usize) -> (r: Result<(), BinarySerializeError>)
        ensures
            r.is_ok() <==> n <= self.rest().len(),
            r.is_err() ==> r == Err::<(), BinarySerializeError>(
                eof_error(self.pos(), n as nat, self.rest().len()),
            ),
    {
        proof {
            use_type_invariant(self);
        }
        let have = self.input.len() - self.pos;
        if n > have {
            Err(
                BinarySerializeError {
                    kind: ErrorKind::UnexpectedEof { need: n, have, pos: self.pos },
                },
            )
        } else {
            Ok(())
        }
    }

    /// The next `len` bytes, borrowed from the input. Nothing is read if
    /// fewer are left.
    pub fn read_bytes(&mut self, len: usize) -> (r: Result<&'a [u8], BinarySerializeError>)
        ensures
            match r {
                Ok(b) => b@ == old(self).rest().take(len as int)
                    && final(self).advanced(old(self), len as nat),
                Err(e) => len > old(self).rest().len() && e == eof_error(
                    old(self).pos(),
                    len as nat,
                    old(self).rest().len(),
                ) && final(self).advanced(old(self), 0),
            },
    {
        proof {
            use_type_invariant(&*self);
            assert(self.rest().skip(0) =~= self.rest());
        }
        match self.ensure_available(len) {
            Err(e) => Err(e),
            Ok(()) => {
                let start = self.pos;
                let input: &'a [u8] = self.input;
                proof {
                    assert(input@.len() == input.len());
                }
                let out = &input[start..start + len];
                self.pos = start + len;
                proof {
                    assert(self.rest() =~= old(self).rest().skip(len as int));
                }
                Ok(out)
            },
        }
    }

    /// The next byte.
    pub fn read_u8(&mut self) -> (r: Result<u8, BinarySerializeError>)
        ensures
            match r {
                Ok(v) => old(self).rest().len() >= 1 && v == old(self).rest()[0]
                    && final(self).advanced(old(self), 1),
                Err(e) => old(self).rest().len() < 1 && e == eof_error(old(self).pos(), 1, 0)
                    && final(self).advanced(old(self), 0),
            },
    {
        match self.read_bytes(1) {
            Ok(b) => Ok(b[0]),
            Err(e) => Err(e),
        }
    }

    /// The next `n` bytes as a little-endian number.
    pub fn read_uint(&mut self, n: usize) -> (r: Result<u128, BinarySerializeError>)
        requires
            n <= 16,
        ensures
            match r {
                Ok(v) => v == le_value(old(self).rest().take(n as int))
                    && final(self).advanced(old(self), n as nat),
                Err(e) => n > old(self).rest().len() && e == eof_error(
                    old(self).pos(),
                    n as nat,
                    old(self).rest().len(),
                ) && final(self).advanced(old(self), 0),
            },
    {
        match self.read_bytes(n) {
            Ok(b) => Ok(value_le(b)),
            Err(e) => Err(e),
        }
    }

    /// The next `N` bytes, copied out.
    pub fn read_exact<const N: usize>(&mut self) -> (r: Result<[u8; N], BinarySerializeError>)
        ensures
            match r {
                Ok(a) => a@ == old(self).rest().take(N as int)
                    && final(self).advanced(old(self), N as nat),
                Err(e) => N > old(self).rest().len() && e == eof_error(
                    old(self).pos(),
                    N as nat,
                    old(self).rest().len(),
                ) && final(self).advanced(old(self), 0),
            },
    {
        match self.read_bytes(N) {
            Ok(b) => {
                let mut buf = [0u8; N];
                let mut i: usize = 0;
                while i < N
                    invariant
                        i <= N,
                        b@.len() == N,
                        forall|j: int| 0 <= j < i ==> buf@[j] == b@[j],
                    decreases N - i,
                {
                    buf[i] = b[i];
                    i = i + 1;
                }
                Ok(buf)
            },
            Err(e) => Err(e),
        }
    }

    /// Two bytes as an unsigned number, least significant first.
    pub fn read_u16(&mut self) -> (r: Result<u16, BinarySerializeError>)
        ensures
            match r {
                Ok(v) => v == le_value(old(self).rest().take(2))
                    && final(self).advanced(old(self), 2),
                Err(e) => old(self).rest().len() < 2 && e == eof_error(
                    old(self).pos(),
                    2,
                    old(self).rest().len(),
                ) && final(self).advanced(old(self), 0),
            },
    {
        proof {
            lemma_pow256_values();
            lemma_le_value_bound(self.rest().take(2));
        }
        match self.read_uint(2) {
            Ok(v) => Ok(v as u16),
            Err(e) => Err(e),
        }
    }

    /// Four bytes as an unsigned number, least significant first.
    pub fn read_u32(&mut self) -> (r: Result<u32, BinarySerializeError>)
        ensures
            match r {
                Ok(v) => v == le_value(old(self).rest().take(4))
                    && final(self).advanced(old(self), 4),
                Err(e) => old(self).rest().len() < 4 && e == eof_error(
                    old(self).pos(),
                    4,
                    old(self).rest().len(),
                ) && final(self).advanced(old(self), 0),
            },
    {
        proof {
            lemma_pow256_values();
            lemma_le_value_bound(self.rest().take(4));
        }
        match self.read_uint(4) {
            Ok(v) => Ok(v as u32),
            Err(e) => Err(e),
        }
    }

    /// Eight bytes as an unsigned number, least significant first.
    pub fn read_u64(&mut self) -> (r: Result<u64, BinarySerializeError>)
        ensures
            match r {
                Ok(v) => v == le_value(old(self).rest().take(8))
                    && final(self).advanced(old(self), 8),
                Err(e) => old(self).rest().len() < 8 && e == eof_error(
                    old(self).pos(),
                    8,
                    old(self).rest().len(),
                ) && final(self).advanced(old(self), 0),
            },
    {
        proof {
            lemma_pow256_values();
            lemma_le_value_bound(self.rest().take(8));
        }
        match self.read_uint(8) {
            Ok(v) => Ok(v as u64),
            Err(e) => Err(e),
        }
    }

    /// Sixteen bytes as an unsigned number, least significant first.
    pub fn read_u128(&mut self) -> (r: Result<u128, BinarySerializeError>)
        ensures
            match r {
                Ok(v) => v == le_value(old(self).rest().take(16))
                    && final(self).advanced(old(self), 16),
                Err(e) => old(self).rest().len() < 16 && e == eof_error(
                    old(self).pos(),
                    16,
                    old(self).rest().len(),
                ) && final(self).advanced(old(self), 0),
            },
    {
        self.read_uint(16)
    }

    /// One byte as a signed number in two's complement.
    pub fn read_i8(&mut self) -> (r: Result<i8, BinarySerializeError>)
        ensures
            match r {
                Ok(v) => v == dec_int(old(self).rest().take(1))
                    && final(self).advanced(old(self), 1),
                Err(e) => old(self).rest().len() < 1 && e == eof_error(
                    old(self).pos(),
                    1,
                    old(self).rest().len(),
                ) && final(self).advanced(old(self), 0),
            },
    {
        proof {
            lemma_pow256_values();
            lemma_le_value_bound(self.rest().take(1));
        }
        match self.read_uint(1) {
            Ok(x) => Ok(
                if x < 0x80 {
                    x as i8
                } else {
                    (x as i16 - 0x100) as i8
                },
            ),
            Err(e) => Err(e),
        }
    }

    /// Two bytes as a signed number in two's complement.
    pub fn read_i16(&mut self) -> (r: Result<i16, BinarySerializeError>)
        ensures
            match r {
                Ok(v) => v == dec_int(old(self).rest().take(2))
                    && final(self).advanced(old(self), 2),
                Err(e) => old(self).rest().len() < 2 && e == eof_error(
                    old(self).pos(),
                    2,
                    old(self).rest().len(),
                ) && final(self).advanced(old(self), 0),
            },
    {
        proof {
            lemma_pow256_values();
            lemma_le_value_bound(self.rest().take(2));
        }
        match self.read_uint(2) {
            Ok(x) => Ok(
                if x < 0x8000 {
                    x as i16
                } else {
                    (x as i32 - 0x1_0000) as i16
                },
            ),
            Err(e) => Err(e),
        }
    }

    /// Four bytes as a signed number in two's complement.
    pub fn read_i32(&mut self) -> (r: Result<i32, BinarySerializeError>)
        ensures
            match r {
                Ok(v) => v == dec_int(old(self).rest().take(4))
                    && final(self).advanced(old(self), 4),
                Err(e) => old(self).rest().len() < 4 && e == eof_error(
                    old(self).pos(),
                    4,
                    old(self).rest().len(),
                ) && final(self).advanced(old(self), 0),
            },
    {
        proof {
            lemma_pow256_values();
            lemma_le_value_bound(self.rest().take(4));
        }
        match self.read_uint(4) {
            Ok(x) => Ok(
                if x < 0x8000_0000 {
                    x as i32
                } else {
                    (x as i64 - 0x1_0000_0000) as i32
                },
            ),
            Err(e) => Err(e),
        }
    }

    /// Eight bytes as a signed number in two's complement.
    pub fn read_i64(&mut self) -> (r: Result<i64, BinarySerializeError>)
        ensures
            match r {
                Ok(v) => v == dec_int(old(self).rest().take(8))
                    && final(self).advanced(old(self), 8),
                Err(e) => old(self).rest().len() < 8 && e == eof_error(
                    old(self).pos(),
                    8,
                    old(self).rest().len(),
                ) && final(self).advanced(old(self), 0),
            },
    {
        proof {
            lemma_pow256_values();
            lemma_le_value_bound(self.rest().take(8));
        }
        match self.read_uint(8) {
            Ok(x) => Ok(
                if x < 0x8000_0000_0000_0000 {
                    x as i64
                } else {
                    (x as i128 - 0x1_0000_0000_0000_0000) as i64
                },
            ),
            Err(e) => Err(e),
        }
    }

    /// Sixteen bytes as a signed number in two's complement.
    pub fn read_i128(&mut self) -> (r: Result<i128, BinarySerializeError>)
        ensures
            match r {
                Ok(v) => v == dec_int(old(self).rest().take(16))
                    && final(self).advanced(old(self), 16),
                Err(e) => old(self).rest().len() < 16 && e == eof_error(
                    old(self).pos(),
                    16,
                    old(self).rest().len(),
                ) && final(self).advanced(old(self), 0),
            },
    {
        proof {
            lemma_pow256_values();
            lemma_le_value_bound(self.rest().take(16));
        }
        match self.read_uint(16) {
            Ok(x) => Ok(
                if x < 0x8000_0000_0000_0000_0000_0000_0000_0000 {
                    x as i128
                } else {
                    ((x - 0x8000_0000_0000_0000_0000_0000_0000_0000) as i128 - i128::MAX) - 1
                },
            ),
            Err(e) => Err(e),
        }
    }


    /// One byte as a truth value: zero is false, anything else true.
    pub fn read_bool(&mut self) -> (r: Result<bool, BinarySerializeError>)
        ensures
            match r {
                Ok(v) => old(self).rest().len() >= 1 && v == (old(self).rest()[0] != 0)
                    && final(self).advanced(old(self), 1),
                Err(e) => old(self).rest().len() < 1 && e == eof_error(old(self).pos(), 1, 0)
                    && final(self).advanced(old(self), 0),
            },
    {
        match self.read_u8() {
            Ok(b) => Ok(b != 0),
            Err(e) => Err(e),
        }
    }

    /// One byte as the character with that code point.
    pub fn read_char(&mut self) -> (r: Result<char, BinarySerializeError>)
        ensures
            match r {
                Ok(v) => old(self).rest().len() >= 1 && v == old(self).rest()[0] as char
                    && final(self).advanced(old(self), 1),
                Err(e) => old(self).rest().len() < 1 && e == eof_error(old(self).pos(), 1, 0)
                    && final(self).advanced(old(self), 0),
            },
    {
        match self.read_u8() {
            Ok(b) => Ok(b as char),
            Err(e) => Err(e),
        }
    }

    /// A four-byte length or count.
    pub fn read_len(&mut self) -> (r: Result<usize, BinarySerializeError>)
        ensures
            match r {
                Ok(v) => v == le_value(old(self).rest().take(4))
                    && final(self).advanced(old(self), 4),
                Err(e) => old(self).rest().len() < 4 && e == eof_error(
                    old(self).pos(),
                    4,
                    old(self).rest().len(),
                ) && final(self).advanced(old(self), 0),
            },
    {
        match self.read_u32() {
            Ok(v) => Ok(v as usize),
            Err(e) => Err(e),
        }
    }

    /// The position of a variant among those of its type.
    pub fn read_variant(&mut self) -> (r: Result<u32, BinarySerializeError>)
        ensures
            match r {
                Ok(v) => v == le_value(old(self).rest().take(4))
                    && final(self).advanced(old(self), 4),
                Err(e) => old(self).rest().len() < 4 && e == eof_error(
                    old(self).pos(),
                    4,
                    old(self).rest().len(),
                ) && final(self).advanced(old(self), 0),
            },
    {
        self.read_u32()
    }

    /// The presence byte of an optional value: whether the value follows.
    /// A byte other than 0 and 1 is refused, and stays read.
    pub fn read_option_tag(&mut self) -> (r: Result<bool, BinarySerializeError>)
        ensures
            match r {
                Ok(present) => old(self).rest().len() >= 1 && old(self).rest()[0] == (if present {
                    1u8
                } else {
                    0u8
                }) && final(self).advanced(old(self), 1),
                Err(e) => if old(self).rest().len() < 1 {
                    e == eof_error(old(self).pos(), 1, 0) && final(self).advanced(old(self), 0)
                } else {
                    old(self).rest()[0] > 1 && e == (BinarySerializeError {
                        kind: ErrorKind::InvalidOptionTag { tag: old(self).rest()[0] },
                    }) && final(self).advanced(old(self), 1)
                },
            },
    {
        match self.read_u8() {
            Ok(tag) => {
                if tag == 0 {
                    Ok(false)
                } else if tag == 1 {
                    Ok(true)
                } else {
                    Err(BinarySerializeError { kind: ErrorKind::InvalidOptionTag { tag } })
                }
            },
            Err(e) => Err(e),
        }
    }

    /// A byte blob: a four-byte length, then that many bytes, borrowed from
    /// the input. If the blob is cut short, its length stays read.
    pub fn read_byte_buf(&mut self) -> (r: Result<&'a [u8], BinarySerializeError>)
        ensures
            match r {
                Ok(b) => old(self).rest().len() >= 4 + blob_len(old(self).rest())
                    && b@ == blob_body(old(self).rest())
                    && final(self).advanced(old(self), 4 + blob_len(old(self).rest())),
                Err(e) => if old(self).rest().len() < 4 {
                    e == eof_error(old(self).pos(), 4, old(self).rest().len())
                        && final(self).advanced(old(self), 0)
                } else {
                    old(self).rest().len() < 4 + blob_len(old(self).rest())
                        && e == eof_error(
                        old(self).pos() + 4,
                        blob_len(old(self).rest()),
                        (old(self).rest().len() - 4) as nat,
                    ) && final(self).advanced(old(self), 4)
                },
            },
    {
        let len = match self.read_len() {
            Ok(len) => len,
            Err(e) => { return Err(e); },
        };
        match self.read_bytes(len) {
            Ok(b) => {
                proof {
                    assert(self.rest() =~= old(self).rest().skip(4 + len));
                }
                Ok(b)
            },
            Err(e) => {
                proof {
                    assert(self.rest() =~= old(self).rest().skip(4));
                }
                Err(e)
            },
        }
    }

    /// Text: a four-byte length, then that many bytes of UTF-8. If the
    /// bytes are cut short or are not UTF-8, only the length stays read.
    pub fn read_string(&mut self) -> (r: Result<String, BinarySerializeError>)
        ensures
            match r {
                Ok(s) => old(self).rest().len() >= 4 + blob_len(old(self).rest())
                    && valid_utf8(blob_body(old(self).rest()))
                    && s@ == decode_utf8(blob_body(old(self).rest()))
                    && final(self).advanced(old(self), 4 + blob_len(old(self).rest())),
                Err(e) => if old(self).rest().len() < 4 {
                    e == eof_error(old(self).pos(), 4, old(self).rest().len())
                        && final(self).advanced(old(self), 0)
                } else if old(self).rest().len() < 4 + blob_len(old(self).rest()) {
                    e == eof_error(
                        old(self).pos() + 4,
                        blob_len(old(self).rest()),
                        (old(self).rest().len() - 4) as nat,
                    ) && final(self).advanced(old(self), 4)
                } else {
                    !valid_utf8(blob_body(old(self).rest()))
                        && e == (BinarySerializeError { kind: ErrorKind::InvalidUtf8 })
                        && final(self).advanced(old(self), 4)
                },
            },
    {
        let len = match self.read_len() {
            Ok(len) => len,
            Err(e) => { return Err(e); },
        };
        match self.ensure_available(len) {
            Ok(()) => {},
            Err(e) => {
                return Err(e);
            },
        }
        proof {
            use_type_invariant(&*self);
        }
        let input: &'a [u8] = self.input;
        let start = self.pos;
        let ghost mid = self.rest();
        proof {
            assert(input@.len() == input.len());
        }
        let body = &input[start..start + len];
        proof {
            assert(body@ =~= mid.take(len as int));
            assert(mid.take(len as int) =~= blob_body(old(self).rest()));
        }
        match text_of_utf8(body) {
            Some(text) => {
                self.pos = start + len;
                let s = text.to_owned();
                proof {
                    assert(self.rest() =~= mid.skip(len as int));
                    assert(mid.skip(len as int) =~= old(self).rest().skip(4 + len));
                    encode_utf8_decode_utf8(s@);
                }
                Ok(s)
            },
            None => Err(BinarySerializeError { kind: ErrorKind::InvalidUtf8 }),
        }
    }

    /// Refuses to read a value whose shape the caller did not name: the
    /// encoding does not describe itself.
    pub fn read_any(&self) -> (r: Result<(), BinarySerializeError>)
        ensures
            r == Err::<(), BinarySerializeError>(
                BinarySerializeError { kind: ErrorKind::ShapeRequired },
            ),
    {
        Err(BinarySerializeError { kind: ErrorKind::ShapeRequired })
    }

}

/// How many elements of a sequence, a tuple or a mapping are still to be
/// read.
pub struct Countdown {
    remaining: usize,
}

impl Countdown {
    /// How many elements are left.
    pub closed spec fn left(&self) -> nat {
        self.remaining as nat
    }

    /// A count of `count` elements, none read yet.
    pub fn new(count: usize) -> (c: Self)
        ensures
            c.left() == count,
    {
        Countdown { remaining: count }
    }

    /// How many elements are left.
    pub fn remaining(&self) -> (n: usize)
        ensures
            n == self.left(),
    {
        self.remaining
    }

    /// Whether an element is left.
    pub fn has_next(&self) -> (b: bool)
        ensures
            b == (self.left() > 0),
    {
        self.remaining > 0
    }

    /// Takes one element off the count, if one is left, and tells whether
    /// one was.
    pub fn next(&mut self) -> (b: bool)
        ensures
            b == (old(self).left() > 0),
            final(self).left() == if b {
                (old(self).left() - 1) as nat
            } else {
                0
            },
    {
        if self.remaining > 0 {
            self.remaining = self.remaining - 1;
            true
        } else {
            false
        }
    }
}

/// A signed number within the range of `width` bytes reads back as it was
/// written.
pub proof fn lemma_int_round_trip(v: int, width: nat)
    requires
        -(pow256(width) as int) <= 2 * v < pow256(width),
    ensures
        enc_int(v, width).len() == width,
        dec_int(enc_int(v, width)) == v,
{
    lemma_twos_round_trip(v, width);
    lemma_le_bytes_len(to_twos(v, width), width);
    lemma_le_value_of_bytes(to_twos(v, width), width);
}

/// A truth value reads back as it was written.
pub proof fn lemma_bool_round_trip(v: bool)
    ensures
        enc_bool(v).len() == 1,
        (enc_bool(v)[0] != 0) == v,
{
}

/// A character up to U+00FF reads back as it was written.
pub proof fn lemma_char_round_trip(c: char)
    requires
        c as u32 <= 0xFF,
    ensures
        enc_char(c).len() == 1,
        enc_char(c)[0] as char == c,
{
}

/// A byte blob shorter than 2^32 bytes reads back as it was written,
/// whatever follows it.
pub proof fn lemma_bytes_round_trip(b: Seq<u8>, tail: Seq<u8>)
    requires
        b.len() < 0x1_0000_0000,
    ensures
        enc_bytes(b).len() == 4 + b.len(),
        blob_len(enc_bytes(b) + tail) == b.len(),
        blob_body(enc_bytes(b) + tail) == b,
{
    let e = enc_bytes(b) + tail;
    lemma_le_bytes_len(b.len(), 4);
    lemma_pow256_values();
    lemma_le_value_of_bytes(b.len(), 4);
    assert(e.take(4) =~= le_bytes(b.len(), 4));
}

/// Text whose UTF-8 form is shorter than 2^32 bytes reads back as it was
/// written, whatever follows it.
pub proof fn lemma_str_round_trip(s: Seq<char>, tail: Seq<u8>)
    requires
        encode_utf8(s).len() < 0x1_0000_0000,
    ensures
        enc_str(s).len() == 4 + encode_utf8(s).len(),
        blob_len(enc_str(s) + tail) == encode_utf8(s).len(),
        valid_utf8(blob_body(enc_str(s) + tail)),
        decode_utf8(blob_body(enc_str(s) + tail)) == s,
{
    lemma_bytes_round_trip(encode_utf8(s), tail);
    encode_utf8_valid_utf8(s);
    encode_utf8_decode_utf8(s);
}

} // verus!
