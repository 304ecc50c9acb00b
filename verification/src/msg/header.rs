//! The fixed frame header and the variable header that follows it.
//!
//! A frame opens with seven bytes: two sentinels, the message type, the
//! payload length and a checksum of the five bytes before it. The message
//! type then decides which fields the variable header carries, in which
//! order, and how long it is:
//!
//! | Message type       | Fields in wire order                                                                  | Bytes |
//! |--------------------|---------------------------------------------------------------------------------------|-------|
//! | Connect            | protocol id, protocol version, keep-alive low, keep-alive high, client id (4), sender | 9     |
//! | ConnectAck         | connect return code                                                                   | 1     |
//! | Data               | client id (4), sender, receiver                                                       | 6     |
//! | DisConnect         | client id (4), sender, receiver                                                       | 6     |
//! | ConnectExtended    | as Connect, then receiver                                                             | 10    |
//! | ConnectExtendedAck | connect return code, client id (4), sender, receiver                                  | 7     |
//! | DisConnectExtended | client id (4), sender                                                                 | 5     |
//! | any other          | none                                                                                  | 0     |
//!
//! The size of each header is the sum of its fields, so that building and
//! reading agree byte for byte.

use vstd::prelude::*;
use crate::msg::checksum::{checksum, crc16_arc};
use crate::msg::serialization::{eof_error, BinarySerializeError, ErrorKind};
use crate::msg::wire::{
    le_bytes, le_value, lemma_le_bytes_len, lemma_le_bytes_of_value, lemma_le_value_bound,
    lemma_le_value_of_bytes, lemma_pow256_values, push_le, value_le,
};

verus! {

/// What a frame is for. A code that names none of the known types reads as
/// `Undefined`, which is a value like the others.
#[derive(Copy, Clone, Debug, PartialEq, Eq, Structural)]
pub enum MsgType {
    Undefined,
    Connect,
    ConnectAck,
    Data,
    DisConnect,
    ConnectExtended,
    ConnectExtendedAck,
    DisConnectExtended,
}

/// The type that a code names, if it names one.
pub open spec fn known_type(code: u8) -> Option<MsgType> {
    if code == 0 {
        Some(MsgType::Undefined)
    } else if code == 1 {
        Some(MsgType::Connect)
    } else if code == 2 {
        Some(MsgType::ConnectAck)
    } else if code == 3 {
        Some(MsgType::Data)
    } else if code == 14 {
        Some(MsgType::DisConnect)
    } else if code == 16 {
        Some(MsgType::ConnectExtended)
    } else if code == 17 {
        Some(MsgType::ConnectExtendedAck)
    } else if code == 18 {
        Some(MsgType::DisConnectExtended)
    } else {
        None
    }
}

impl MsgType {
    /// The code of this type on the wire.
    pub open spec fn spec_code(self) -> u8 {
        match self {
            MsgType::Undefined => 0,
            MsgType::Connect => 1,
            MsgType::ConnectAck => 2,
            MsgType::Data => 3,
            MsgType::DisConnect => 14,
            MsgType::ConnectExtended => 16,
            MsgType::ConnectExtendedAck => 17,
            MsgType::DisConnectExtended => 18,
        }
    }

    /// The type that a code reads as: `Undefined` for every unknown code.
    pub open spec fn spec_from_code(code: u8) -> MsgType {
        match known_type(code) {
            Some(t) => t,
            None => MsgType::Undefined,
        }
    }

    /// The code of this type on the wire.
    pub fn code(self) -> (c: u8)
        ensures
            c == self.spec_code(),
    {
        match self {
            MsgType::Undefined => 0,
            MsgType::Connect => 1,
            MsgType::ConnectAck => 2,
            MsgType::Data => 3,
            MsgType::DisConnect => 14,
            MsgType::ConnectExtended => 16,
            MsgType::ConnectExtendedAck => 17,
            MsgType::DisConnectExtended => 18,
        }
    }

    /// The type that `value` names; an error for a code that names none.
    pub fn try_from(value: u8) -> (r: Result<MsgType, ()>)
        ensures
            match r {
                Ok(t) => known_type(value) == Some(t),
                Err(_) => known_type(value).is_none(),
            },
    {
        match value {
            0 => Ok(MsgType::Undefined),
            1 => Ok(MsgType::Connect),
            2 => Ok(MsgType::ConnectAck),
            3 => Ok(MsgType::Data),
            14 => Ok(MsgType::DisConnect),
            16 => Ok(MsgType::ConnectExtended),
            17 => Ok(MsgType::ConnectExtendedAck),
            18 => Ok(MsgType::DisConnectExtended),
            _ => Err(()),
        }
    }

    /// The type that `value` reads as: `Undefined` for every unknown code.
    pub fn from_code(value: u8) -> (t: MsgType)
        ensures
            t == MsgType::spec_from_code(value),
    {
        match MsgType::try_from(value) {
            Ok(t) => t,
            Err(_) => MsgType::Undefined,
        }
    }
}

/// Every type is the one its own code reads as.
pub proof fn lemma_type_code_round_trip(t: MsgType)
    ensures
        known_type(t.spec_code()) == Some(t),
        MsgType::spec_from_code(t.spec_code()) == t,
{
}

/// The parties that send and receive frames.
#[derive(Copy, Clone, Debug, PartialEq, Eq, Structural)]
pub enum DeviceCode {
    MobileApp,
    Backend,
    ChargingStationApplicationSw,
    MowerMainBoardApplicationSw,
    PcConnectedToMowerCsConnector,
    PcConnectedToMainBoardUartInterface,
    PcConnectedToCsBoard,
}

impl DeviceCode {
    /// The code of this party on the wire.
    pub open spec fn spec_code(self) -> u8 {
        match self {
            DeviceCode::MobileApp => 0x41,
            DeviceCode::Backend => 0x42,
            DeviceCode::ChargingStationApplicationSw => 0x43,
            DeviceCode::MowerMainBoardApplicationSw => 0x4D,
            DeviceCode::PcConnectedToMowerCsConnector => 0x4E,
            DeviceCode::PcConnectedToMainBoardUartInterface => 0x4F,
            DeviceCode::PcConnectedToCsBoard => 0x50,
        }
    }

    /// The code of this party on the wire.
    pub fn code(self) -> (c: u8)
        ensures
            c == self.spec_code(),
    {
        match self {
            DeviceCode::MobileApp => 0x41,
            DeviceCode::Backend => 0x42,
            DeviceCode::ChargingStationApplicationSw => 0x43,
            DeviceCode::MowerMainBoardApplicationSw => 0x4D,
            DeviceCode::PcConnectedToMowerCsConnector => 0x4E,
            DeviceCode::PcConnectedToMainBoardUartInterface => 0x4F,
            DeviceCode::PcConnectedToCsBoard => 0x50,
        }
    }
}

/// The first sentinel byte of every frame.
pub const SOH: u8 = 0x01;

/// The second sentinel byte of every frame.
pub const STX: u8 = 0x02;

/// How many bytes the fixed header takes.
pub const HEADER_LEN: usize = 7;

/// The fixed header of a frame.
#[derive(Debug)]
pub struct Header {
    /// The first sentinel as it was read; always written as `SOH`.
    pub soh: u8,
    /// The second sentinel as it was read; always written as `STX`.
    pub stx: u8,
    pub msg_type: MsgType,
    pub payload_length: u16,
    pub crc: u16,
}

/// The seven bytes of a header with the given type, payload length and
/// checksum. The sentinels are constants.
pub open spec fn header_bytes(msg_type: MsgType, payload_length: u16, crc: u16) -> Seq<u8> {
    seq![SOH, STX, msg_type.spec_code()] + le_bytes(payload_length as nat, 2) + le_bytes(
        crc as nat,
        2,
    )
}

impl Header {
    /// The bytes that this header is written as.
    pub open spec fn spec_bytes(&self) -> Seq<u8> {
        header_bytes(self.msg_type, self.payload_length, self.crc)
    }

    /// What the first seven bytes of `bytes` read as.
    pub open spec fn spec_from_bytes(bytes: Seq<u8>) -> Header {
        Header {
            soh: bytes[0],
            stx: bytes[1],
            msg_type: MsgType::spec_from_code(bytes[2]),
            payload_length: le_value(bytes.subrange(3, 5)) as u16,
            crc: le_value(bytes.subrange(5, 7)) as u16,
        }
    }

    /// The header checksum of a frame: that of the five bytes of `frame`
    /// before the checksum field.
    pub open spec fn spec_crc(frame: Seq<u8>) -> u16 {
        crc16_arc(frame.take(5))
    }

    /// The header of a data frame with an empty payload and no checksum
    /// yet.
    pub fn new() -> (h: Self)
        ensures
            h.soh == SOH,
            h.stx == STX,
            h.msg_type == MsgType::Data,
            h.payload_length == 0,
            h.crc == 0,
    {
        Header { soh: 0x01, stx: 0x02, msg_type: MsgType::Data, payload_length: 0, crc: 0 }
    }

    /// The seven bytes of this header. The sentinels are written as their
    /// constants, whatever was read into them.
    pub fn to_bytes(&self) -> (bytes: Vec<u8>)
        ensures
            bytes@ == self.spec_bytes(),
            bytes@.len() == HEADER_LEN,
    {
        let mut bytes: Vec<u8> = Vec::new();
        bytes.push(SOH);
        bytes.push(STX);
        bytes.push(self.msg_type.code());
        push_le(&mut bytes, self.payload_length as u128, 2);
        push_le(&mut bytes, self.crc as u128, 2);
        proof {
            lemma_le_bytes_len(self.payload_length as nat, 2);
            lemma_le_bytes_len(self.crc as nat, 2);
        }
        bytes
    }

    /// Reads a header off the front of `bytes`. The sentinels are kept as
    /// read and not compared with their constants; an unknown type code
    /// reads as `Undefined`; the checksum is kept, not verified.
    pub fn from_bytes(bytes: &[u8]) -> (r: Result<Header, BinarySerializeError>)
        ensures
            match r {
                Ok(h) => bytes@.len() >= HEADER_LEN && h == Header::spec_from_bytes(bytes@),
                Err(e) => bytes@.len() < HEADER_LEN && e == eof_error(
                    0,
                    HEADER_LEN as nat,
                    bytes@.len(),
                ),
            },
    {
        if bytes.len() < HEADER_LEN {
            return Err(
                BinarySerializeError {
                    kind: ErrorKind::UnexpectedEof { need: HEADER_LEN, have: bytes.len(), pos: 0 },
                },
            );
        }
        let len = value_le(&bytes[3..5]);
        let crc = value_le(&bytes[5..7]);
        proof {
            lemma_pow256_values();
            lemma_le_value_bound(bytes@.subrange(3, 5));
            lemma_le_value_bound(bytes@.subrange(5, 7));
        }
        Ok(
            Header {
                soh: bytes[0],
                stx: bytes[1],
                msg_type: MsgType::from_code(bytes[2]),
                payload_length: len as u16,
                crc: crc as u16,
            },
        )
    }

    /// Computes the checksum of `buf` as it is handed in, all of it, and
    /// stores it both in this header and, least significant byte first, in
    /// the checksum field of `buf`. The other bytes of `buf` and the other
    /// fields of the header stay as they are.
    pub fn calculate_crc(&mut self, buf: &mut Vec<u8>) -> (crc: u16)
        requires
            old(buf)@.len() >= HEADER_LEN,
        ensures
            crc == crc16_arc(old(buf)@),
            *final(self) == (Header { crc, ..*old(self) }),
            final(buf)@ == old(buf)@.take(5) + le_bytes(crc as nat, 2) + old(buf)@.skip(7),
    {
        let crc = checksum(buf.as_slice());
        self.crc = crc;
        let b0: u8 = (crc % 256) as u8;
        let b1: u8 = (crc / 256) as u8;
        buf.set(5, b0);
        buf.set(6, b1);
        proof {
            reveal_with_fuel(le_bytes, 3);
        }
        crc
    }
}

/// A header that is written and read back keeps its type, its payload
/// length and its checksum, and has the constant sentinels.
pub proof fn lemma_header_round_trip(h: Header)
    ensures
        h.spec_bytes().len() == HEADER_LEN,
        Header::spec_from_bytes(h.spec_bytes()) == (Header { soh: SOH, stx: STX, ..h }),
        h.soh == SOH && h.stx == STX ==> Header::spec_from_bytes(h.spec_bytes()) == h,
{
    let b = h.spec_bytes();
    lemma_le_bytes_len(h.payload_length as nat, 2);
    lemma_le_bytes_len(h.crc as nat, 2);
    lemma_type_code_round_trip(h.msg_type);
    lemma_pow256_values();
    lemma_le_value_of_bytes(h.payload_length as nat, 2);
    lemma_le_value_of_bytes(h.crc as nat, 2);
    assert(b.subrange(3, 5) =~= le_bytes(h.payload_length as nat, 2));
    assert(b.subrange(5, 7) =~= le_bytes(h.crc as nat, 2));

}

/// The protocol identifier sent unless the caller sets one: the production
/// interface.
pub const DEFAULT_PROTOCOL_ID: u8 = 0x06;

/// The protocol version sent unless the caller sets one.
pub const DEFAULT_PROTOCOL_VERSION: u8 = 0x02;

/// The low keep-alive byte sent unless the caller sets one.
pub const DEFAULT_KEEP_ALIVE_LSB: u8 = 0;

/// The high keep-alive byte sent unless the caller sets one.
pub const DEFAULT_KEEP_ALIVE_MSB: u8 = 0;

/// The client identifier sent unless the caller sets one.
pub const DEFAULT_CLIENT_ID: u32 = 0x01;

/// The sender named unless the caller sets one: a PC on the mainboard's
/// UART.
pub const DEFAULT_SENDER: u8 = 0x4F;

/// The receiver named unless the caller sets one: the mainboard
/// application.
pub const DEFAULT_RECEIVER: u8 = 0x4D;

/// The connect return code sent unless the caller sets one.
pub const DEFAULT_CONNECT_RETURN_CODE: u8 = 0x09;

/// A value for every field that a variable header can carry.
pub struct VarFields {
    pub protocol_id: u8,
    pub protocol_version: u8,
    pub keepalive_lsb: u8,
    pub keepalive_msb: u8,
    pub sender: u8,
    pub receiver: u8,
    pub client_id: u32,
    pub connect_return_code: u8,
}

/// The default of every field.
pub open spec fn default_fields() -> VarFields {
    VarFields {
        protocol_id: DEFAULT_PROTOCOL_ID,
        protocol_version: DEFAULT_PROTOCOL_VERSION,
        keepalive_lsb: DEFAULT_KEEP_ALIVE_LSB,
        keepalive_msb: DEFAULT_KEEP_ALIVE_MSB,
        sender: DEFAULT_SENDER,
        receiver: DEFAULT_RECEIVER,
        client_id: DEFAULT_CLIENT_ID,
        connect_return_code: DEFAULT_CONNECT_RETURN_CODE,
    }
}

/// How many bytes the variable header of a frame of type `t` takes.
pub open spec fn layout_size(t: MsgType) -> nat {
    match t {
        MsgType::Connect => 9,
        MsgType::ConnectAck => 1,
        MsgType::Data => 6,
        MsgType::DisConnect => 6,
        MsgType::ConnectExtended => 10,
        MsgType::ConnectExtendedAck => 7,
        MsgType::DisConnectExtended => 5,
        MsgType::Undefined => 0,
    }
}

/// The variable header of a frame of type `t`: the fields that the type
/// carries, in wire order, with values from `f`.
pub open spec fn layout_bytes(t: MsgType, f: VarFields) -> Seq<u8> {
    match t {
        MsgType::Connect => seq![
            f.protocol_id,
            f.protocol_version,
            f.keepalive_lsb,
            f.keepalive_msb,
        ] + le_bytes(f.client_id as nat, 4) + seq![f.sender],
        MsgType::ConnectAck => seq![f.connect_return_code],
        MsgType::Data => le_bytes(f.client_id as nat, 4) + seq![f.sender, f.receiver],
        MsgType::DisConnect => le_bytes(f.client_id as nat, 4) + seq![f.sender, f.receiver],
        MsgType::ConnectExtended => seq![
            f.protocol_id,
            f.protocol_version,
            f.keepalive_lsb,
            f.keepalive_msb,
        ] + le_bytes(f.client_id as nat, 4) + seq![f.sender, f.receiver],
        MsgType::ConnectExtendedAck => seq![f.connect_return_code] + le_bytes(
            f.client_id as nat,
            4,
        ) + seq![f.sender, f.receiver],
        MsgType::DisConnectExtended => le_bytes(f.client_id as nat, 4) + seq![f.sender],
        MsgType::Undefined => Seq::empty(),
    }
}

/// The field values that the variable header `b` of a frame of type `t`
/// holds. A field that the type does not carry has its default.
pub open spec fn parse_layout(t: MsgType, b: Seq<u8>) -> VarFields {
    let d = default_fields();
    match t {
        MsgType::Connect => VarFields {
            protocol_id: b[0],
            protocol_version: b[1],
            keepalive_lsb: b[2],
            keepalive_msb: b[3],
            client_id: le_value(b.subrange(4, 8)) as u32,
            sender: b[8],
            ..d
        },
        MsgType::ConnectAck => VarFields { connect_return_code: b[0], ..d },
        MsgType::Data => VarFields {
            client_id: le_value(b.subrange(0, 4)) as u32,
            sender: b[4],
            receiver: b[5],
            ..d
        },
        MsgType::DisConnect => VarFields {
            client_id: le_value(b.subrange(0, 4)) as u32,
            sender: b[4],
            receiver: b[5],
            ..d
        },
        MsgType::ConnectExtended => VarFields {
            protocol_id: b[0],
            protocol_version: b[1],
            keepalive_lsb: b[2],
            keepalive_msb: b[3],
            client_id: le_value(b.subrange(4, 8)) as u32,
            sender: b[8],
            receiver: b[9],
            ..d
        },
        MsgType::ConnectExtendedAck => VarFields {
            connect_return_code: b[0],
            client_id: le_value(b.subrange(1, 5)) as u32,
            sender: b[5],
            receiver: b[6],
            ..d
        },
        MsgType::DisConnectExtended => VarFields {
            client_id: le_value(b.subrange(0, 4)) as u32,
            sender: b[4],
            ..d
        },
        MsgType::Undefined => d,
    }
}

/// `f` in the fields that the variable header of a frame of type `t`
/// carries, the defaults in the others.
pub open spec fn carried(t: MsgType, f: VarFields) -> VarFields {
    let d = default_fields();
    match t {
        MsgType::Connect => VarFields {
            receiver: d.receiver,
            connect_return_code: d.connect_return_code,
            ..f
        },
        MsgType::ConnectAck => VarFields { connect_return_code: f.connect_return_code, ..d },
        MsgType::Data | MsgType::DisConnect => VarFields {
            client_id: f.client_id,
            sender: f.sender,
            receiver: f.receiver,
            ..d
        },
        MsgType::ConnectExtended => VarFields { connect_return_code: d.connect_return_code, ..f },
        MsgType::ConnectExtendedAck => VarFields {
            connect_return_code: f.connect_return_code,
            client_id: f.client_id,
            sender: f.sender,
            receiver: f.receiver,
            ..d
        },
        MsgType::DisConnectExtended => VarFields { client_id: f.client_id, sender: f.sender, ..d },
        MsgType::Undefined => d,
    }
}

/// `a` and `b` hold the same value in every field that the variable header
/// of a frame of type `t` carries.
pub open spec fn agree_on(t: MsgType, a: VarFields, b: VarFields) -> bool {
    carried(t, a) == carried(t, b)
}

/// The variable header of every type has the length that the layout table
/// gives it, and reading it back gives the values it was written from in
/// every field that the type carries, and the defaults in the others.
pub proof fn lemma_var_header_round_trip(t: MsgType, f: VarFields)
    ensures
        layout_bytes(t, f).len() == layout_size(t),
        parse_layout(t, layout_bytes(t, f)) == carried(t, f),
        agree_on(t, parse_layout(t, layout_bytes(t, f)), f),
{
    let b = layout_bytes(t, f);
    let c = le_bytes(f.client_id as nat, 4);
    lemma_le_bytes_len(f.client_id as nat, 4);
    lemma_pow256_values();
    lemma_le_value_of_bytes(f.client_id as nat, 4);
    match t {
        MsgType::Connect | MsgType::ConnectExtended => {
            assert(b.subrange(4, 8) =~= c);
        },
        MsgType::ConnectExtendedAck => {
            assert(b.subrange(1, 5) =~= c);
        },
        MsgType::Data | MsgType::DisConnect | MsgType::DisConnectExtended => {
            assert(b.subrange(0, 4) =~= c);
        },
        _ => {},
    }
}

/// What a variable header reads as depends only on as many bytes as the
/// layout table gives its type.
pub proof fn lemma_parse_layout_prefix(t: MsgType, b: Seq<u8>)
    requires
        b.len() >= layout_size(t),
    ensures
        parse_layout(t, b) == parse_layout(t, b.take(layout_size(t) as int)),
{
    let p = b.take(layout_size(t) as int);
    match t {
        MsgType::Connect | MsgType::ConnectExtended => {
            assert(b.subrange(4, 8) =~= p.subrange(4, 8));
        },
        MsgType::ConnectExtendedAck => {
            assert(b.subrange(1, 5) =~= p.subrange(1, 5));
        },
        MsgType::Data | MsgType::DisConnect | MsgType::DisConnectExtended => {
            assert(b.subrange(0, 4) =~= p.subrange(0, 4));
        },
        _ => {},
    }
}

/// Any byte string long enough for the variable header of type `t` starts
/// with the encoding of the fields read from it.
pub proof fn lemma_var_header_bytes_round_trip(t: MsgType, b: Seq<u8>)
    requires
        b.len() >= layout_size(t),
    ensures
        layout_bytes(t, parse_layout(t, b)) == b.take(layout_size(t) as int),
{
    lemma_pow256_values();
    match t {
        MsgType::Connect | MsgType::ConnectExtended => {
            lemma_le_bytes_of_value(b.subrange(4, 8));
            lemma_le_value_bound(b.subrange(4, 8));
        },
        MsgType::ConnectExtendedAck => {
            lemma_le_bytes_of_value(b.subrange(1, 5));
            lemma_le_value_bound(b.subrange(1, 5));
        },
        MsgType::Data | MsgType::DisConnect | MsgType::DisConnectExtended => {
            lemma_le_bytes_of_value(b.subrange(0, 4));
            lemma_le_value_bound(b.subrange(0, 4));
        },
        _ => {},
    }
}

/// The variable header of a frame: a value, or none, for each field that
/// some message type carries, the header's size for the type it was built
/// or read for, and the bytes it was built as.
#[derive(Debug)]
pub struct VarHeader {
    pub protocol_id: Option<u8>,
    pub protocol_version: Option<u8>,
    pub keepalive_lsb: Option<u8>,
    pub keepalive_msb: Option<u8>,
    pub sender: Option<u8>,
    pub receiver: Option<u8>,
    pub client_id: Option<u32>,
    pub connect_return_code: Option<u8>,
    pub size: u16,
    pub data: Vec<u8>,
}

/// The size that the layout table gives the variable header of type `t`;
/// none for a type without one.
pub open spec fn spec_default_size(t: MsgType) -> Option<u16> {
    match t {
        MsgType::Undefined => None,
        _ => Some(layout_size(t) as u16),
    }
}

impl VarHeader {
    /// The value that each field is built with: the one set, or the
    /// field's default.
    pub open spec fn resolved(&self) -> VarFields {
        VarFields {
            protocol_id: self.protocol_id.unwrap_or(DEFAULT_PROTOCOL_ID),
            protocol_version: self.protocol_version.unwrap_or(DEFAULT_PROTOCOL_VERSION),
            keepalive_lsb: self.keepalive_lsb.unwrap_or(DEFAULT_KEEP_ALIVE_LSB),
            keepalive_msb: self.keepalive_msb.unwrap_or(DEFAULT_KEEP_ALIVE_MSB),
            sender: self.sender.unwrap_or(DEFAULT_SENDER),
            receiver: self.receiver.unwrap_or(DEFAULT_RECEIVER),
            client_id: self.client_id.unwrap_or(DEFAULT_CLIENT_ID),
            connect_return_code: self.connect_return_code.unwrap_or(DEFAULT_CONNECT_RETURN_CODE),
        }
    }

    /// Every field is set, to its value in `f`.
    pub open spec fn holds(&self, f: VarFields) -> bool {
        &&& self.protocol_id == Some(f.protocol_id)
        &&& self.protocol_version == Some(f.protocol_version)
        &&& self.keepalive_lsb == Some(f.keepalive_lsb)
        &&& self.keepalive_msb == Some(f.keepalive_msb)
        &&& self.sender == Some(f.sender)
        &&& self.receiver == Some(f.receiver)
        &&& self.client_id == Some(f.client_id)
        &&& self.connect_return_code == Some(f.connect_return_code)
    }

    /// `self` and `other` have the same value, or none, in every field.
    pub open spec fn same_fields(&self, other: &VarHeader) -> bool {
        &&& self.protocol_id == other.protocol_id
        &&& self.protocol_version == other.protocol_version
        &&& self.keepalive_lsb == other.keepalive_lsb
        &&& self.keepalive_msb == other.keepalive_msb
        &&& self.sender == other.sender
        &&& self.receiver == other.receiver
        &&& self.client_id == other.client_id
        &&& self.connect_return_code == other.connect_return_code
    }

    /// A header with every field set to its default, of size zero and with
    /// no bytes built.
    pub fn new() -> (vh: Self)
        ensures
            vh.holds(default_fields()),
            vh.size == 0,
            vh.data@ == Seq::<u8>::empty(),
    {
        VarHeader {
            protocol_id: Some(DEFAULT_PROTOCOL_ID),
            protocol_version: Some(DEFAULT_PROTOCOL_VERSION),
            keepalive_lsb: Some(DEFAULT_KEEP_ALIVE_LSB),
            keepalive_msb: Some(DEFAULT_KEEP_ALIVE_MSB),
            sender: Some(DEFAULT_SENDER),
            receiver: Some(DEFAULT_RECEIVER),
            client_id: Some(DEFAULT_CLIENT_ID),
            connect_return_code: Some(DEFAULT_CONNECT_RETURN_CODE),
            size: 0,
            data: Vec::new(),
        }
    }

    /// Sets the protocol identifier.
    pub fn with_protocol_id(self, v: u8) -> (r: Self)
        ensures
            r == (VarHeader { protocol_id: Some(v), ..self }),
    {
        let mut r = self;
        r.protocol_id = Some(v);
        r
    }

    /// Sets the protocol version.
    pub fn with_protocol_version(self, v: u8) -> (r: Self)
        ensures
            r == (VarHeader { protocol_version: Some(v), ..self }),
    {
        let mut r = self;
        r.protocol_version = Some(v);
        r
    }

    /// Sets the low keep-alive byte.
    pub fn with_keepalive_lsb(self, v: u8) -> (r: Self)
        ensures
            r == (VarHeader { keepalive_lsb: Some(v), ..self }),
    {
        let mut r = self;
        r.keepalive_lsb = Some(v);
        r
    }

    /// Sets the high keep-alive byte.
    pub fn with_keepalive_msb(self, v: u8) -> (r: Self)
        ensures
            r == (VarHeader { keepalive_msb: Some(v), ..self }),
    {
        let mut r = self;
        r.keepalive_msb = Some(v);
        r
    }

    /// Sets the sender's device code.
    pub fn with_sender(self, v: u8) -> (r: Self)
        ensures
            r == (VarHeader { sender: Some(v), ..self }),
    {
        let mut r = self;
        r.sender = Some(v);
        r
    }

    /// Sets the receiver's device code.
    pub fn with_receiver(self, v: u8) -> (r: Self)
        ensures
            r == (VarHeader { receiver: Some(v), ..self }),
    {
        let mut r = self;
        r.receiver = Some(v);
        r
    }

    /// Sets the client identifier.
    pub fn with_client_id(self, v: u32) -> (r: Self)
        ensures
            r == (VarHeader { client_id: Some(v), ..self }),
    {
        let mut r = self;
        r.client_id = Some(v);
        r
    }

    /// Sets the connect return code.
    pub fn with_connect_return_code(self, v: u8) -> (r: Self)
        ensures
            r == (VarHeader { connect_return_code: Some(v), ..self }),
    {
        let mut r = self;
        r.connect_return_code = Some(v);
        r
    }

    /// Sets the client identifier in place.
    pub fn set_client_id(&mut self, v: u32)
        ensures
            *final(self) == (VarHeader { client_id: Some(v), ..*old(self) }),
    {
        self.client_id = Some(v);
    }

    /// The size that the layout table gives the variable header of a frame
    /// of type `msg_type`; none for a type without a variable header.
    pub fn default_size(msg_type: MsgType) -> (r: Option<u16>)
        ensures
            r == spec_default_size(msg_type),
    {
        match msg_type {
            MsgType::Connect => Some(9),
            MsgType::ConnectAck => Some(1),
            MsgType::Data => Some(6),
            MsgType::DisConnect => Some(6),
            MsgType::ConnectExtended => Some(10),
            MsgType::ConnectExtendedAck => Some(7),
            MsgType::DisConnectExtended => Some(5),
            _ => None,
        }
    }

    /// The bytes of this header for a frame of type `msg_type`: the fields
    /// that the type carries, in the order of the layout table, each with
    /// the value set or else its default.
    pub fn layout(&self, msg_type: MsgType) -> (data: Vec<u8>)
        ensures
            data@ == layout_bytes(msg_type, self.resolved()),
            data@.len() == layout_size(msg_type),
    {
        let protocol_id = self.protocol_id.unwrap_or(DEFAULT_PROTOCOL_ID);
        let protocol_version = self.protocol_version.unwrap_or(DEFAULT_PROTOCOL_VERSION);
        let keepalive_lsb = self.keepalive_lsb.unwrap_or(DEFAULT_KEEP_ALIVE_LSB);
        let keepalive_msb = self.keepalive_msb.unwrap_or(DEFAULT_KEEP_ALIVE_MSB);
        let sender = self.sender.unwrap_or(DEFAULT_SENDER);
        let receiver = self.receiver.unwrap_or(DEFAULT_RECEIVER);
        let client_id = self.client_id.unwrap_or(DEFAULT_CLIENT_ID);
        let connect_return_code = self.connect_return_code.unwrap_or(DEFAULT_CONNECT_RETURN_CODE);
        let mut data: Vec<u8> = Vec::new();
        match msg_type {
            MsgType::ConnectExtended => {
                data.push(protocol_id);
                data.push(protocol_version);
                data.push(keepalive_lsb);
                data.push(keepalive_msb);
                push_le(&mut data, client_id as u128, 4);
                data.push(sender);
                data.push(receiver);
            },
            MsgType::Connect => {
                data.push(protocol_id);
                data.push(protocol_version);
                data.push(keepalive_lsb);
                data.push(keepalive_msb);
                push_le(&mut data, client_id as u128, 4);
                data.push(sender);
            },
            MsgType::ConnectExtendedAck => {
                data.push(connect_return_code);
                push_le(&mut data, client_id as u128, 4);
                data.push(sender);
                data.push(receiver);
            },
            MsgType::ConnectAck => {
                data.push(connect_return_code);
            },
            MsgType::Data => {
                push_le(&mut data, client_id as u128, 4);
                data.push(sender);
                data.push(receiver);
            },
            MsgType::DisConnectExtended => {
                push_le(&mut data, client_id as u128, 4);
                data.push(sender);
            },
            MsgType::DisConnect => {
                push_le(&mut data, client_id as u128, 4);
                data.push(sender);
                data.push(receiver);
            },
            _ => {},
        };
        proof {
            lemma_le_bytes_len(client_id as nat, 4);
        }
        data
    }

    /// Builds this header for a frame of type `msg_type`: its bytes are
    /// laid out as the layout table says, and its size is set to theirs.
    /// The fields stay as they are; bytes built before are replaced.
    pub fn build(self, msg_type: MsgType) -> (r: Self)
        ensures
            r.same_fields(&self),
            r.data@ == layout_bytes(msg_type, self.resolved()),
            r.data@.len() == layout_size(msg_type),
            r.size == layout_size(msg_type),
    {
        let data = self.layout(msg_type);
        let mut built = self;
        built.size = match VarHeader::default_size(msg_type) {
            Some(size) => size,
            None => 0,
        };
        built.data = data;
        built
    }

    /// Reads the variable header of a frame of type `msg_type` off the
    /// front of `buf`. Each field that the type carries is set to what was
    /// read, each other field to its default; no bytes are kept.
    pub fn from_bytes(buf: &[u8], msg_type: MsgType) -> (r: Result<
        VarHeader,
        BinarySerializeError,
    >)
        ensures
            match r {
                Ok(vh) => {
                    &&& buf@.len() >= layout_size(msg_type)
                    &&& vh.holds(parse_layout(msg_type, buf@))
                    &&& vh.size == layout_size(msg_type)
                    &&& vh.data@ == Seq::<u8>::empty()
                },
                Err(e) => buf@.len() < layout_size(msg_type) && e == eof_error(
                    0,
                    layout_size(msg_type),
                    buf@.len(),
                ),
            },
    {
        let size: u16 = match VarHeader::default_size(msg_type) {
            Some(size) => size,
            None => 0,
        };
        if buf.len() < size as usize {
            return Err(
                BinarySerializeError {
                    kind: ErrorKind::UnexpectedEof { need: size as usize, have: buf.len(), pos: 0 },
                },
            );
        }
        let mut var_header = match msg_type {
            MsgType::ConnectExtended => VarHeader::create_connect(buf),
            MsgType::Connect => VarHeader::create_connect_legacy(buf),
            MsgType::ConnectExtendedAck => VarHeader::create_connect_ack(buf),
            MsgType::ConnectAck => VarHeader::create_connect_ack_legacy(buf),
            MsgType::Data => VarHeader::create_data(buf),
            MsgType::DisConnectExtended => VarHeader::create_disconnect(buf),
            MsgType::DisConnect => VarHeader::create_disconnect_legacy(buf),
            _ => VarHeader::new(),
        };
        var_header.size = size;
        Ok(var_header)
    }

    /// The client identifier in the four bytes of `buf` from `at` on.
    fn client_id_at(buf: &[u8], at: usize) -> (v: u32)
        requires
            at + 4 <= buf@.len(),
        ensures
            v == le_value(buf@.subrange(at as int, at + 4)) as u32,
            v == le_value(buf@.subrange(at as int, at + 4)),
    {
        proof {
            lemma_pow256_values();
            lemma_le_value_bound(buf@.subrange(at as int, at + 4));
            assert(buf@.len() == buf.len());
        }
        value_le(&buf[at..at + 4]) as u32
    }

    /// Reads the header of an extended connect request.
    fn create_connect(buf: &[u8]) -> (vh: VarHeader)
        requires
            buf@.len() >= 10,
        ensures
            vh.holds(parse_layout(MsgType::ConnectExtended, buf@)),
            vh.size == 0,
            vh.data@ == Seq::<u8>::empty(),
    {
        VarHeader::new().with_protocol_id(buf[0]).with_protocol_version(buf[1]).with_keepalive_lsb(
            buf[2],
        ).with_keepalive_msb(buf[3]).with_client_id(VarHeader::client_id_at(buf, 4)).with_sender(
            buf[8],
        ).with_receiver(buf[9])
    }

    /// Reads the header of a connect request.
    fn create_connect_legacy(buf: &[u8]) -> (vh: VarHeader)
        requires
            buf@.len() >= 9,
        ensures
            vh.holds(parse_layout(MsgType::Connect, buf@)),
            vh.size == 0,
            vh.data@ == Seq::<u8>::empty(),
    {
        VarHeader::new().with_protocol_id(buf[0]).with_protocol_version(buf[1]).with_keepalive_lsb(
            buf[2],
        ).with_keepalive_msb(buf[3]).with_client_id(VarHeader::client_id_at(buf, 4)).with_sender(
            buf[8],
        )
    }

    /// Reads the header of the answer to an extended connect request.
    fn create_connect_ack(buf: &[u8]) -> (vh: VarHeader)
        requires
            buf@.len() >= 7,
        ensures
            vh.holds(parse_layout(MsgType::ConnectExtendedAck, buf@)),
            vh.size == 0,
            vh.data@ == Seq::<u8>::empty(),
    {
        VarHeader::new().with_connect_return_code(buf[0]).with_client_id(
            VarHeader::client_id_at(buf, 1),
        ).with_sender(buf[5]).with_receiver(buf[6])
    }

    /// Reads the header of the answer to a connect request.
    fn create_connect_ack_legacy(buf: &[u8]) -> (vh: VarHeader)
        requires
            buf@.len() >= 1,
        ensures
            vh.holds(parse_layout(MsgType::ConnectAck, buf@)),
            vh.size == 0,
            vh.data@ == Seq::<u8>::empty(),
    {
        VarHeader::new().with_connect_return_code(buf[0])
    }

    /// Reads the header of a data frame.
    fn create_data(buf: &[u8]) -> (vh: VarHeader)
        requires
            buf@.len() >= 6,
        ensures
            vh.holds(parse_layout(MsgType::Data, buf@)),
            vh.size == 0,
            vh.data@ == Seq::<u8>::empty(),
    {
        VarHeader::new().with_client_id(VarHeader::client_id_at(buf, 0)).with_sender(
            buf[4],
        ).with_receiver(buf[5])
    }

    /// Reads the header of an extended disconnect.
    fn create_disconnect(buf: &[u8]) -> (vh: VarHeader)
        requires
            buf@.len() >= 5,
        ensures
            vh.holds(parse_layout(MsgType::DisConnectExtended, buf@)),
            vh.size == 0,
            vh.data@ == Seq::<u8>::empty(),
    {
        VarHeader::new().with_client_id(VarHeader::client_id_at(buf, 0)).with_sender(buf[4])
    }

    /// Reads the header of a disconnect.
    fn create_disconnect_legacy(buf: &[u8]) -> (vh: VarHeader)
        requires
            buf@.len() >= 6,
        ensures
            vh.holds(parse_layout(MsgType::DisConnect, buf@)),
            vh.size == 0,
            vh.data@ == Seq::<u8>::empty(),
    {
        VarHeader::new().with_client_id(VarHeader::client_id_at(buf, 0)).with_sender(
            buf[4],
        ).with_receiver(buf[5])
    }
}

} // verus!
