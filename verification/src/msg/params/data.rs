//! The records that parameters carry.

use vstd::prelude::*;
use crate::msg::serialization::{
    eof_error, BinaryDeserializer, BinarySerializeError, BinarySerializer,
};

verus! {

/// The answer to a request for the cutting height.
#[derive(Debug, Clone, Copy, PartialEq, Eq, Structural)]
pub struct Param471 {
    pub return_code: u8,
    pub default_cutting_height: u8,
    pub current_cutting_height: u8,
    pub information: u8,
}

impl Param471 {
    /// How many bytes the record takes.
    pub const WIRE_LEN: usize = 4;

    /// The record on the wire: its fields in declaration order, one byte
    /// each, with nothing between them.
    pub open spec fn spec_bytes(self) -> Seq<u8> {
        seq![
            self.return_code,
            self.default_cutting_height,
            self.current_cutting_height,
            self.information,
        ]
    }

    /// What the byte string `b` reads as: the record in its first four
    /// bytes, or the truncation met at the first field that is missing.
    pub open spec fn spec_from_bytes(b: Seq<u8>) -> Result<Param471, BinarySerializeError> {
        if b.len() >= 4 {
            Ok(
                Param471 {
                    return_code: b[0],
                    default_cutting_height: b[1],
                    current_cutting_height: b[2],
                    information: b[3],
                },
            )
        } else {
            Err(eof_error(b.len(), 1, 0))
        }
    }

    /// Appends the record to what `ser` has written.
    pub fn serialize(&self, ser: &mut BinarySerializer)
        ensures
            final(ser)@ == old(ser)@ + self.spec_bytes(),
    {
        ser.write_u8(self.return_code);
        ser.write_u8(self.default_cutting_height);
        ser.write_u8(self.current_cutting_height);
        ser.write_u8(self.information);
    }

    /// Reads a record off the front of what `de` has left. On a
    /// truncation the fields before the missing one stay read.
    pub fn deserialize(de: &mut BinaryDeserializer) -> (r: Result<Param471, BinarySerializeError>)
        ensures
            match r {
                Ok(p) => Ok::<Param471, BinarySerializeError>(p) == Param471::spec_from_bytes(
                    old(de).rest(),
                ) && final(de).advanced(old(de), 4),
                Err(e) => old(de).rest().len() < 4 && e == eof_error(
                    old(de).pos() + old(de).rest().len(),
                    1,
                    0,
                ) && final(de).advanced(old(de), old(de).rest().len()),
            },
    {
        let ghost s = de.rest();
        let return_code = match de.read_u8() {
            Ok(v) => v,
            Err(e) => { return Err(e); },
        };
        let default_cutting_height = match de.read_u8() {
            Ok(v) => v,
            Err(e) => {
                proof {
                    assert(de.rest() =~= s.skip(1));
                }
                return Err(e);
            },
        };
        let current_cutting_height = match de.read_u8() {
            Ok(v) => v,
            Err(e) => {
                proof {
                    assert(de.rest() =~= s.skip(2));
                }
                return Err(e);
            },
        };
        let information = match de.read_u8() {
            Ok(v) => v,
            Err(e) => {
                proof {
                    assert(de.rest() =~= s.skip(3));
                }
                return Err(e);
            },
        };
        proof {
            assert(de.rest() =~= s.skip(4));
        }
        Ok(Param471 { return_code, default_cutting_height, current_cutting_height, information })
    }
}

} // verus!
