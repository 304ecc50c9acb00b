//! Parameters: the typed, identified values that a payload carries, and
//! the registry that maps each identifier to the shape of its value.

use vstd::prelude::*;
use crate::msg::params::data::Param471;
use crate::msg::serialization::{
    eof_error, BinaryDeserializer, BinarySerializeError, BinarySerializer, ErrorKind,
};
use crate::msg::serialization::append;
use crate::msg::wire::{
    le_bytes, le_value, lemma_le_bytes_len, lemma_le_value_bound, lemma_le_value_of_bytes,
    lemma_pow256_values, push_le, value_le,
};

pub mod data;

verus! {

/// The identifiers of the registered parameters.
#[derive(Debug, Clone, Copy, PartialEq, Eq, PartialOrd, Ord)]
pub enum ParamId {
    /// 470: a request for the cutting height; carries nothing.
    GetCuttingHeightReq,
    /// 471: the answer to it; carries a `Param471`.
    GetCuttingHeightResp,
}

impl ParamId {
    /// The identifier on the wire.
    pub open spec fn spec_code(self) -> u16 {
        match self {
            ParamId::GetCuttingHeightReq => 470,
            ParamId::GetCuttingHeightResp => 471,
        }
    }

    /// The registered parameter that `id` names, if it names one.
    pub open spec fn spec_from_code(id: u16) -> Option<ParamId> {
        if id == 470 {
            Some(ParamId::GetCuttingHeightReq)
        } else if id == 471 {
            Some(ParamId::GetCuttingHeightResp)
        } else {
            None
        }
    }

    /// The identifier on the wire.
    pub fn code(self) -> (id: u16)
        ensures
            id == self.spec_code(),
    {
        match self {
            ParamId::GetCuttingHeightReq => 470,
            ParamId::GetCuttingHeightResp => 471,
        }
    }

    /// The registered parameter that `id` names, if it names one.
    pub fn from_code(id: u16) -> (r: Option<ParamId>)
        ensures
            r == ParamId::spec_from_code(id),
    {
        match id {
            470 => Some(ParamId::GetCuttingHeightReq),
            471 => Some(ParamId::GetCuttingHeightResp),
            _ => None,
        }
    }
}

/// The value of a parameter: one variant for each registered identifier.
#[derive(Debug, Clone, Copy, PartialEq, Eq)]
pub enum ParamPayload {
    P470,
    P471(Param471),
}

/// The error for an identifier that is not registered.
pub open spec fn unsupported(id: u16) -> BinarySerializeError {
    BinarySerializeError { kind: ErrorKind::UnsupportedParam { id } }
}

impl ParamPayload {
    /// The identifier under which this value is registered.
    pub open spec fn spec_id(self) -> ParamId {
        match self {
            ParamPayload::P470 => ParamId::GetCuttingHeightReq,
            ParamPayload::P471(_) => ParamId::GetCuttingHeightResp,
        }
    }

    /// The value on the wire: nothing for a variant without data, the
    /// record for one with.
    pub open spec fn spec_encode(self) -> Seq<u8> {
        match self {
            ParamPayload::P470 => Seq::empty(),
            ParamPayload::P471(data) => data.spec_bytes(),
        }
    }

    /// What `bytes` read as under the identifier `id`. Bytes beyond the
    /// value are ignored.
    pub open spec fn spec_decode(id: u16, bytes: Seq<u8>) -> Result<
        ParamPayload,
        BinarySerializeError,
    > {
        match ParamId::spec_from_code(id) {
            Some(ParamId::GetCuttingHeightReq) => Ok(ParamPayload::P470),
            Some(ParamId::GetCuttingHeightResp) => match Param471::spec_from_bytes(bytes) {
                Ok(data) => Ok(ParamPayload::P471(data)),
                Err(e) => Err(e),
            },
            None => Err(unsupported(id)),
        }
    }

    /// The identifier under which this value is registered.
    pub fn id(&self) -> (id: ParamId)
        ensures
            id == self.spec_id(),
    {
        match self {
            ParamPayload::P470 => ParamId::GetCuttingHeightReq,
            ParamPayload::P471(_) => ParamId::GetCuttingHeightResp,
        }
    }

    /// Reads the value registered under `id` from `bytes`. An identifier
    /// that is not registered is an error.
    pub fn deconde(id: u16, bytes: &[u8]) -> (r: Result<Self, BinarySerializeError>)
        ensures
            r == ParamPayload::spec_decode(id, bytes@),
    {
        match ParamId::from_code(id) {
            Some(ParamId::GetCuttingHeightReq) => Ok(ParamPayload::P470),
            Some(ParamId::GetCuttingHeightResp) => {
                let mut de = BinaryDeserializer::new(bytes);
                match Param471::deserialize(&mut de) {
                    Ok(data) => Ok(ParamPayload::P471(data)),
                    Err(e) => Err(e),
                }
            },
            None => Err(BinarySerializeError { kind: ErrorKind::UnsupportedParam { id } }),
        }
    }

    /// The value on the wire.
    pub fn encode(&self) -> (bytes: Vec<u8>)
        ensures
            bytes@ == self.spec_encode(),
    {
        match self {
            ParamPayload::P470 => Vec::new(),
            ParamPayload::P471(data) => {
                let mut ser = BinarySerializer::new();
                data.serialize(&mut ser);
                ser.into_bytes()
            },
        }
    }
}

/// A parameter: an identifier and the value sent under it.
#[derive(Debug, Clone, Copy, PartialEq, Eq)]
pub struct Param {
    pub id: u16,
    pub data: ParamPayload,
}

/// How many bytes the identifier and the length take in front of a
/// parameter's value.
pub const PARAM_PREFIX_LEN: usize = 4;

/// The identifier that a parameter record declares.
pub open spec fn declared_id(bytes: Seq<u8>) -> u16 {
    le_value(bytes.subrange(0, 2)) as u16
}

/// The length of its value that a parameter record declares.
pub open spec fn declared_len(bytes: Seq<u8>) -> nat {
    le_value(bytes.subrange(2, 4))
}

impl Param {
    /// The parameter on the wire: identifier, length of the value, value.
    pub open spec fn spec_bytes(self) -> Seq<u8> {
        le_bytes(self.id as nat, 2) + le_bytes(self.data.spec_encode().len(), 2)
            + self.data.spec_encode()
    }

    /// The identifier is the one under which the value is registered.
    pub open spec fn well_formed(self) -> bool {
        self.id == self.data.spec_id().spec_code()
    }

    /// What the parameter record at the front of `bytes` reads as. A
    /// record that is cut short is a truncation, whatever identifier it
    /// declares.
    pub open spec fn spec_from_bytes(bytes: Seq<u8>) -> Result<Param, BinarySerializeError> {
        if bytes.len() < 4 {
            Err(eof_error(0, 4, bytes.len()))
        } else if bytes.len() - 4 < declared_len(bytes) {
            Err(eof_error(4, declared_len(bytes), (bytes.len() - 4) as nat))
        } else {
            match ParamPayload::spec_decode(
                declared_id(bytes),
                bytes.subrange(4, 4 + declared_len(bytes) as int),
            ) {
                Ok(data) => Ok(Param { id: declared_id(bytes), data }),
                Err(e) => Err(e),
            }
        }
    }

    /// A parameter with the given identifier and value.
    pub fn new(id: u16, data: ParamPayload) -> (p: Self)
        ensures
            p == (Param { id, data }),
    {
        Param { id, data }
    }

    /// Appends the parameter to `out`.
    pub fn write_to(&self, out: &mut Vec<u8>)
        ensures
            final(out)@ == old(out)@ + self.spec_bytes(),
    {
        let data_bytes = self.data.encode();
        push_le(out, self.id as u128, 2);
        push_le(out, data_bytes.len() as u128, 2);
        append(out, data_bytes.as_slice());
    }

    /// The parameter on the wire: identifier, length of the value, value.
    pub fn to_bytes(self) -> (bytes: Vec<u8>)
        ensures
            bytes@ == self.spec_bytes(),
    {
        let mut buf: Vec<u8> = Vec::new();
        self.write_to(&mut buf);
        buf
    }

    /// Reads the parameter record at the front of `bytes`: identifier,
    /// length, and a value of that length of the shape registered under
    /// the identifier.
    pub fn from_bytes(bytes: &[u8]) -> (r: Result<Self, BinarySerializeError>)
        ensures
            r == Param::spec_from_bytes(bytes@),
    {
        let total = bytes.len();
        if total < PARAM_PREFIX_LEN {
            return Err(
                BinarySerializeError {
                    kind: ErrorKind::UnexpectedEof { need: PARAM_PREFIX_LEN, have: total, pos: 0 },
                },
            );
        }
        proof {
            lemma_pow256_values();
            lemma_le_value_bound(bytes@.subrange(0, 2));
            lemma_le_value_bound(bytes@.subrange(2, 4));
        }
        let id = value_le(&bytes[0..2]) as u16;
        let len = value_le(&bytes[2..4]) as usize;
        if total - PARAM_PREFIX_LEN < len {
            return Err(
                BinarySerializeError {
                    kind: ErrorKind::UnexpectedEof {
                        need: len,
                        have: total - PARAM_PREFIX_LEN,
                        pos: PARAM_PREFIX_LEN,
                    },
                },
            );
        }
        match ParamPayload::deconde(id, &bytes[4..4 + len]) {
            Ok(data) => Ok(Param { id, data }),
            Err(e) => Err(e),
        }
    }
}

/// A parameter whose identifier is the one its value is registered under
/// reads back as itself, whatever follows it in the buffer.
pub proof fn lemma_param_round_trip(p: Param, tail: Seq<u8>)
    requires
        p.well_formed(),
    ensures
        Param::spec_from_bytes(p.spec_bytes() + tail) == Ok::<Param, BinarySerializeError>(p),
        declared_len(p.spec_bytes() + tail) + 4 == p.spec_bytes().len(),
{
    let data = p.data.spec_encode();
    let b = p.spec_bytes() + tail;
    lemma_le_bytes_len(p.id as nat, 2);
    lemma_le_bytes_len(data.len(), 2);
    lemma_pow256_values();
    lemma_le_value_of_bytes(p.id as nat, 2);
    lemma_le_value_of_bytes(data.len(), 2);
    assert(b.subrange(0, 2) =~= le_bytes(p.id as nat, 2));
    assert(b.subrange(2, 4) =~= le_bytes(data.len(), 2));
}

/// A record that declares an identifier that is not registered, and is
/// not cut short, is refused as unsupported.
pub proof fn lemma_unregistered_id_refused(bytes: Seq<u8>)
    requires
        bytes.len() >= 4 + declared_len(bytes),
        ParamId::spec_from_code(declared_id(bytes)).is_none(),
    ensures
        Param::spec_from_bytes(bytes) == Err::<Param, BinarySerializeError>(
            unsupported(declared_id(bytes)),
        ),
{
}

/// A record that declares more bytes than the buffer holds is refused as
/// truncated, and the error tells how many bytes are missing.
pub proof fn lemma_truncated_record_refused(bytes: Seq<u8>)
    requires
        4 <= bytes.len() < 4 + declared_len(bytes),
    ensures
        Param::spec_from_bytes(bytes) is Err,
        Param::spec_from_bytes(bytes)->Err_0 == eof_error(
            4,
            declared_len(bytes),
            (bytes.len() - 4) as nat,
        ),
        Param::spec_from_bytes(bytes)->Err_0.spec_missing() == 4 + declared_len(bytes)
            - bytes.len(),
{
    lemma_pow256_values();
    lemma_le_value_bound(bytes.subrange(2, 4));
}

/// Walks a cutting height answer through the registry and through the
/// parameter framing, there and back.
pub fn test_param() {
    let record = Param471 {
        return_code: 0,
        current_cutting_height: 0,
        default_cutting_height: 0,
        information: 1,
    };
    let payload = ParamPayload::P471(record);
    let bytes = payload.encode();
    let back = ParamPayload::deconde(471, bytes.as_slice());
    assert(back == Ok::<ParamPayload, BinarySerializeError>(payload));
    let param = Param::new(471, ParamPayload::P471(record));
    let bytes = param.to_bytes();
    proof {
        lemma_param_round_trip(param, Seq::empty());
        assert(param.spec_bytes() + Seq::<u8>::empty() =~= param.spec_bytes());
    }
    let read = Param::from_bytes(bytes.as_slice()).unwrap();
    assert(read == param);
}

} // verus!
