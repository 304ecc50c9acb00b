//! Frames: a fixed header, a variable header shaped by the message type,
//! and a payload of parameters closed by a checksum.
//!
//! ```text
//! [SOH][STX][MsgType:1][PayloadLen:2][CRC:2]      fixed header, 7 bytes
//! [variable header, sized by the message type]
//! [MsgId:1][ParamsLen:2] {[ParamId:2][ParamLen:2][ParamData]}* [CRC:2]
//! ```
//!
//! The header checksum covers the five bytes before it. The payload
//! checksum, the last two bytes of the frame, covers everything before it:
//! fixed header, variable header and payload. The payload length counts
//! the payload with its checksum. Bytes that follow the frame in a buffer
//! are the message's raw body and are carried as they are.

use vstd::prelude::*;
use crate::msg::checksum::{checksum, crc16_arc};
use crate::msg::header::{
    carried, default_fields, layout_bytes, layout_size, lemma_header_round_trip,
    lemma_parse_layout_prefix, lemma_var_header_round_trip, parse_layout, Header, MsgType,
    VarFields, VarHeader, HEADER_LEN, SOH, STX,
};
use crate::msg::params::Param;
use crate::msg::payload::{
    all_well_formed, lemma_payload_round_trip, params_bytes, Payload, PayloadView,
};
use crate::msg::serialization::{append, eof_error, BinarySerializeError, ErrorKind};
use crate::msg::wire::{
    le_bytes, le_value, lemma_le_bytes_len, lemma_le_bytes_of_value, lemma_le_value_bound,
    lemma_le_value_of_bytes, lemma_pow256_values, push_le, value_le,
};

pub mod checksum;
pub mod header;
pub mod params;
pub mod payload;
pub mod schema;
pub mod serialization;
pub mod wire;

verus! {

/// One message: what a frame says, and the raw bytes that came after it.
pub struct Msg {
    header: Header,
    var_header: VarHeader,
    payload: Payload,
    body: Vec<u8>,
}

/// What a message says.
pub struct MsgView {
    pub msg_type: MsgType,
    /// The value that each field of the variable header is sent with.
    pub var: VarFields,
    pub msg_id: u8,
    pub params: Seq<Param>,
    /// The raw bytes behind the frame.
    pub body: Seq<u8>,
}

/// The error for a stored checksum that differs from the computed one.
pub open spec fn checksum_mismatch(stored: u16, computed: u16) -> BinarySerializeError {
    BinarySerializeError { kind: ErrorKind::ChecksumMismatch { stored, computed } }
}

/// The error for a payload too long for the header's length field.
pub open spec fn too_long(len: nat) -> BinarySerializeError {
    BinarySerializeError { kind: ErrorKind::TooLong { len: len as usize } }
}

impl MsgView {
    /// The payload without its checksum: message identifier, total length
    /// of the parameters, the parameters.
    pub open spec fn payload_body(self) -> Seq<u8> {
        seq![self.msg_id] + le_bytes(params_bytes(self.params).len(), 2) + params_bytes(
            self.params,
        )
    }

    /// What the header's length field has to say: the length of the
    /// payload with its checksum.
    pub open spec fn payload_len(self) -> nat {
        self.payload_body().len() + 2
    }

    /// The first five bytes of the frame.
    pub open spec fn header_start(self) -> Seq<u8> {
        seq![SOH, STX, self.msg_type.spec_code()] + le_bytes(self.payload_len(), 2)
    }

    /// The frame up to its last two bytes: everything that the payload
    /// checksum covers.
    pub open spec fn guarded(self) -> Seq<u8> {
        self.header_start() + le_bytes(crc16_arc(self.header_start()) as nat, 2) + layout_bytes(
            self.msg_type,
            self.var,
        ) + self.payload_body()
    }

    /// The message on the wire: the frame, then the raw body.
    pub open spec fn spec_bytes(self) -> Seq<u8> {
        self.guarded() + le_bytes(crc16_arc(self.guarded()) as nat, 2) + self.body
    }

    /// What `to_bytes` gives: the bytes, unless the payload is too long for
    /// the 16-bit length field of the header.
    pub open spec fn spec_to_bytes(self) -> Result<Seq<u8>, BinarySerializeError> {
        if self.payload_len() > 0xFFFF {
            Err(too_long(self.payload_body().len()))
        } else {
            Ok(self.spec_bytes())
        }
    }

    /// What `bytes` read as. In this order: the fixed header must be
    /// there, its checksum must match, the variable header and the payload
    /// must fit in the buffer, the payload must have room for its own
    /// frame, its checksum must match, and its parameters must read.
    pub open spec fn spec_from_bytes(bytes: Seq<u8>) -> Result<MsgView, BinarySerializeError> {
        let h = Header::spec_from_bytes(bytes);
        let vsize = layout_size(h.msg_type);
        let plen = h.payload_length as nat;
        let have = (bytes.len() - 7) as nat;
        let end = 7 + vsize + plen;
        let payload = bytes.subrange(7 + vsize as int, end as int);
        let stored = le_value(bytes.subrange(end - 2, end as int)) as u16;
        let computed = crc16_arc(bytes.take(end - 2));
        if bytes.len() < 7 {
            Err(eof_error(0, 7, bytes.len()))
        } else if h.crc != Header::spec_crc(bytes) {
            Err(checksum_mismatch(h.crc, Header::spec_crc(bytes)))
        } else if have < vsize {
            Err(eof_error(7, vsize, have))
        } else if have - vsize < plen {
            Err(eof_error(7 + vsize, plen, (have - vsize) as nat))
        } else if plen < 5 {
            Err(eof_error(0, 5, plen))
        } else if stored != computed {
            Err(checksum_mismatch(stored, computed))
        } else {
            match PayloadView::spec_from_bytes(payload) {
                Err(e) => Err(e),
                Ok(p) => Ok(
                    MsgView {
                        msg_type: h.msg_type,
                        var: parse_layout(h.msg_type, bytes.subrange(7, 7 + vsize as int)),
                        msg_id: p.msg_id,
                        params: p.params,
                        body: bytes.skip(end as int),
                    },
                ),
            }
        }
    }
}

impl View for Msg {
    type V = MsgView;

    closed spec fn view(&self) -> MsgView {
        MsgView {
            msg_type: self.header.msg_type,
            var: self.var_header.resolved(),
            msg_id: self.payload.msg_id,
            params: self.payload.params@,
            body: self.body@,
        }
    }
}

impl Msg {
    /// A data message with every variable header field at its default, no
    /// parameters and no body.
    pub fn new() -> (m: Self)
        ensures
            m@ == (MsgView {
                msg_type: MsgType::Data,
                var: default_fields(),
                msg_id: 0,
                params: Seq::empty(),
                body: Seq::empty(),
            }),
    {
        Msg {
            header: Header::new(),
            var_header: VarHeader::new(),
            payload: Payload::new(),
            body: Vec::new(),
        }
    }

    /// Sets the message type, and with it the shape of the variable
    /// header.
    pub fn set_message_type(&mut self, msg_type: MsgType)
        ensures
            final(self)@ == (MsgView { msg_type, ..old(self)@ }),
    {
        self.header.msg_type = msg_type;
    }

    /// The message type.
    pub fn get_message_type(&self) -> (t: MsgType)
        ensures
            t == self@.msg_type,
    {
        self.header.msg_type
    }

    /// Adds a parameter behind those already there.
    pub fn add_param(&mut self, param: Param)
        ensures
            final(self)@ == (MsgView { params: old(self)@.params.push(param), ..old(self)@ }),
    {
        self.payload.add_param(param);
    }

    /// How many parameters the message carries.
    pub fn param_count(&self) -> (n: usize)
        ensures
            n == self@.params.len(),
    {
        self.payload.get_params().len()
    }

    /// The parameter at `index`.
    pub fn get_param(&self, index: usize) -> (p: &Param)
        requires
            index < self@.params.len(),
        ensures
            *p == self@.params[index as int],
    {
        &self.payload.get_params()[index]
    }

    /// Sets the message identifier.
    pub fn set_msg_id(&mut self, id: u8)
        ensures
            final(self)@ == (MsgView { msg_id: id, ..old(self)@ }),
    {
        self.payload.msg_id = id;
    }

    /// The message identifier.
    pub fn get_msg_id(&self) -> (id: u8)
        ensures
            id == self@.msg_id,
    {
        self.payload.msg_id
    }

    /// Sets the client identifier that the variable header is sent with.
    pub fn set_client_id(&mut self, client_id: u32)
        ensures
            final(self)@ == (MsgView {
                var: VarFields { client_id, ..old(self)@.var },
                ..old(self)@
            }),
    {
        self.var_header.set_client_id(client_id);
    }

    /// The raw bytes behind the frame.
    pub fn get_body(&self) -> (body: &Vec<u8>)
        ensures
            body@ == self@.body,
    {
        &self.body
    }

    /// The message on the wire. The header is written with the payload's
    /// length and both checksums are computed afresh; whatever length and
    /// checksums were read into this message are not used. A payload
    /// longer than 65535 bytes cannot be framed.
    pub fn to_bytes(&self) -> (r: Result<Vec<u8>, BinarySerializeError>)
        ensures
            match r {
                Ok(bytes) => self@.spec_to_bytes() == Ok::<Seq<u8>, BinarySerializeError>(bytes@),
                Err(e) => self@.spec_to_bytes() == Err::<Seq<u8>, BinarySerializeError>(e),
            },
    {
        let msg_type = self.header.msg_type;
        let mut payload_body: Vec<u8> = Vec::new();
        self.payload.write_body(&mut payload_body);
        if payload_body.len() > 0xFFFF - 2 {
            return Err(
                BinarySerializeError { kind: ErrorKind::TooLong { len: payload_body.len() } },
            );
        }
        let payload_length: u16 = (payload_body.len() + 2) as u16;
        let unsigned = Header { soh: SOH, stx: STX, msg_type, payload_length, crc: 0 };
        let start = unsigned.to_bytes();
        proof {
            lemma_le_bytes_len(payload_length as nat, 2);
            lemma_le_bytes_len(0, 2);
            assert(start@.subrange(0, 5) =~= self@.header_start());
        }
        let header_crc = checksum(&start.as_slice()[0..5]);
        let header = Header { soh: SOH, stx: STX, msg_type, payload_length, crc: header_crc };
        let mut buf = header.to_bytes();
        let var_header = self.var_header.layout(msg_type);
        proof {
            lemma_le_bytes_len(header_crc as nat, 2);
        }
        append(&mut buf, var_header.as_slice());
        append(&mut buf, payload_body.as_slice());
        let crc = checksum(buf.as_slice());
        push_le(&mut buf, crc as u128, 2);
        append(&mut buf, self.body.as_slice());
        Ok(buf)
    }

    /// Reads a message from `bytes`: a frame at the front, and whatever
    /// follows it as the raw body. Both checksums are verified before the
    /// parameters are read.
    pub fn from_bytes(bytes: &[u8]) -> (r: Result<Msg, BinarySerializeError>)
        ensures
            match r {
                Ok(m) => MsgView::spec_from_bytes(bytes@) == Ok::<MsgView, BinarySerializeError>(
                    m@,
                ),
                Err(e) => MsgView::spec_from_bytes(bytes@) == Err::<MsgView, BinarySerializeError>(
                    e,
                ),
            },
    {
        let total = bytes.len();
        let header = match Header::from_bytes(bytes) {
            Ok(h) => h,
            Err(e) => { return Err(e); },
        };
        let computed = checksum(&bytes[0..5]);
        if header.crc != computed {
            return Err(
                BinarySerializeError {
                    kind: ErrorKind::ChecksumMismatch { stored: header.crc, computed },
                },
            );
        }
        let msg_type = header.msg_type;
        let have = total - HEADER_LEN;
        let var_header = match VarHeader::from_bytes(&bytes[HEADER_LEN..total], msg_type) {
            Ok(vh) => vh,
            Err(_) => {
                return Err(
                    BinarySerializeError {
                        kind: ErrorKind::UnexpectedEof {
                            need: match VarHeader::default_size(msg_type) {
                                Some(size) => size as usize,
                                None => 0,
                            },
                            have,
                            pos: HEADER_LEN,
                        },
                    },
                );
            },
        };
        let vsize = var_header.size as usize;
        let plen = header.payload_length as usize;
        if have - vsize < plen {
            return Err(
                BinarySerializeError {
                    kind: ErrorKind::UnexpectedEof {
                        need: plen,
                        have: have - vsize,
                        pos: HEADER_LEN + vsize,
                    },
                },
            );
        }
        let start = HEADER_LEN + vsize;
        let end = start + plen;
        if plen < 5 {
            return Err(
                BinarySerializeError {
                    kind: ErrorKind::UnexpectedEof { need: 5, have: plen, pos: 0 },
                },
            );
        }
        proof {
            lemma_pow256_values();
            lemma_le_value_bound(bytes@.subrange(end - 2, end as int));
        }
        let stored = value_le(&bytes[end - 2..end]) as u16;
        let computed = checksum(&bytes[0..end - 2]);
        if stored != computed {
            return Err(
                BinarySerializeError { kind: ErrorKind::ChecksumMismatch { stored, computed } },
            );
        }
        let payload = match Payload::from_bytes(&bytes[start..end]) {
            Ok(p) => p,
            Err(e) => { return Err(e); },
        };
        let mut body: Vec<u8> = Vec::new();
        append(&mut body, &bytes[end..total]);
        proof {
            let parsed = parse_layout(msg_type, bytes@.subrange(7, total as int));
            assert(parsed == parse_layout(msg_type, bytes@.subrange(7, 7 + vsize))) by {
                lemma_parse_layout_prefix(msg_type, bytes@.subrange(7, total as int));
                assert(bytes@.subrange(7, total as int).take(vsize as int) =~= bytes@.subrange(
                    7,
                    7 + vsize,
                ));
            }
        }
        Ok(Msg { header, var_header, payload, body })
    }

}

/// A message whose parameters have matching identifiers and whose payload
/// fits the header's length field reads back as it was written: the same
/// type, message identifier, parameters in the same order and raw body,
/// and the same value in every variable header field that the type
/// carries. The fields that the type does not carry read back as their
/// defaults.
pub proof fn lemma_msg_round_trip(v: MsgView)
    requires
        all_well_formed(v.params),
        v.payload_len() <= 0xFFFF,
    ensures
        v.spec_to_bytes() == Ok::<Seq<u8>, BinarySerializeError>(v.spec_bytes()),
        MsgView::spec_from_bytes(v.spec_bytes()) == Ok::<MsgView, BinarySerializeError>(
            MsgView { var: carried(v.msg_type, v.var), ..v },
        ),
{
    let b = v.spec_bytes();
    let t = v.msg_type;
    let plen = v.payload_len();
    let start5 = v.header_start();
    let hcrc = crc16_arc(start5);
    let vh = layout_bytes(t, v.var);
    let g = v.guarded();
    let crc = crc16_arc(g);
    let pv = PayloadView { msg_id: v.msg_id, unencrypted_length: 0, params: v.params, crc };
    let h = Header { soh: SOH, stx: STX, msg_type: t, payload_length: plen as u16, crc: hcrc };
    lemma_le_bytes_len(plen, 2);
    lemma_le_bytes_len(hcrc as nat, 2);
    lemma_le_bytes_len(crc as nat, 2);
    lemma_pow256_values();
    lemma_le_value_of_bytes(crc as nat, 2);
    lemma_header_round_trip(h);
    lemma_var_header_round_trip(t, v.var);
    lemma_payload_round_trip(pv);
    let vsize = layout_size(t);
    let end = 7 + vsize + plen;
    assert(b.take(5) =~= start5);
    assert(b.subrange(3, 5) =~= h.spec_bytes().subrange(3, 5));
    assert(b.subrange(5, 7) =~= h.spec_bytes().subrange(5, 7));
    assert(b.subrange(7, 7 + vsize as int) =~= vh);
    assert(b.subrange(7 + vsize as int, end as int) =~= pv.spec_bytes());
    assert(b.subrange(end - 2, end as int) =~= le_bytes(crc as nat, 2));
    assert(b.take(end - 2) =~= g);
    assert(b.skip(end as int) =~= v.body);
}

/// Where the payload of the frame at the front of `bytes` ends, going by
/// its header.
pub open spec fn frame_end(bytes: Seq<u8>) -> int {
    let h = Header::spec_from_bytes(bytes);
    7 + layout_size(h.msg_type) + h.payload_length
}

/// A buffer reads as a message only if both stored checksums are the
/// checksums of the bytes they guard: the header's of the first five
/// bytes, the payload's of the whole frame before it.
pub proof fn lemma_checksums_enforced(bytes: Seq<u8>)
    requires
        MsgView::spec_from_bytes(bytes) is Ok,
    ensures
        bytes.len() >= 7,
        Header::spec_from_bytes(bytes).crc == crc16_arc(bytes.take(5)),
        12 <= frame_end(bytes) <= bytes.len(),
        le_value(bytes.subrange(frame_end(bytes) - 2, frame_end(bytes))) == crc16_arc(
            bytes.take(frame_end(bytes) - 2),
        ),
{
    let end = frame_end(bytes);
    lemma_pow256_values();
    lemma_le_value_bound(bytes.subrange(end - 2, end));
}

/// `bytes` do not read as a message because a stored checksum differs from
/// the computed one.
pub open spec fn refused_for_checksum(bytes: Seq<u8>) -> bool {
    &&& MsgView::spec_from_bytes(bytes) is Err
    &&& MsgView::spec_from_bytes(bytes)->Err_0.kind is ChecksumMismatch
}

/// A frame that reads, with any one of its bytes changed, is refused for
/// its checksum, unless the change is one that the checksum cannot tell:
/// the bytes it guards have the same checksum before and after. A change
/// inside either checksum field is always refused.
pub proof fn lemma_changed_frame_refused(bytes: Seq<u8>, i: int, b: u8)
    requires
        MsgView::spec_from_bytes(bytes) is Ok,
        0 <= i < frame_end(bytes),
        b != bytes[i],
    ensures
        i < 5 ==> refused_for_checksum(bytes.update(i, b)) || crc16_arc(
            bytes.update(i, b).take(5),
        ) == crc16_arc(bytes.take(5)),
        5 <= i < 7 ==> refused_for_checksum(bytes.update(i, b)),
        7 <= i < frame_end(bytes) - 2 ==> refused_for_checksum(bytes.update(i, b)) || crc16_arc(
            bytes.update(i, b).take(frame_end(bytes) - 2),
        ) == crc16_arc(bytes.take(frame_end(bytes) - 2)),
        frame_end(bytes) - 2 <= i ==> refused_for_checksum(bytes.update(i, b)),
{
    let changed = bytes.update(i, b);
    let end = frame_end(bytes);
    lemma_checksums_enforced(bytes);
    lemma_pow256_values();
    if i < 5 {
        assert(changed.subrange(5, 7) =~= bytes.subrange(5, 7));
    } else if i < 7 {
        let before = bytes.subrange(5, 7);
        let after = changed.subrange(5, 7);
        assert(changed.take(5) =~= bytes.take(5));
        assert(before[i - 5] != after[i - 5]);
        lemma_le_bytes_of_value(before);
        lemma_le_bytes_of_value(after);
        lemma_le_value_bound(before);
        lemma_le_value_bound(after);
    } else {
        let before = bytes.subrange(end - 2, end);
        let after = changed.subrange(end - 2, end);
        assert(changed.subrange(3, 5) =~= bytes.subrange(3, 5));
        assert(changed.subrange(5, 7) =~= bytes.subrange(5, 7));
        lemma_le_value_bound(before);
        lemma_le_value_bound(after);
        if i < end - 2 {
            assert(after =~= before);
        } else {
            assert(changed.take(end - 2) =~= bytes.take(end - 2));
            assert(before[i - (end - 2)] != after[i - (end - 2)]);
            lemma_le_bytes_of_value(before);
            lemma_le_bytes_of_value(after);
        }
    }
}

} // verus!
