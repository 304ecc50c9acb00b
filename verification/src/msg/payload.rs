//! The payload of a frame: a message identifier, a length, the parameters
//! back to back, and a trailing checksum.
//!
//! ```text
//! | MsgId  | Len     | ParamId | ParamLen | ParamData | ... | CRC     |
//! | 8 bits | 16 bits | 16 bits | 16 bits  | x bits    | ... | 16 bits |
//! ```

use vstd::prelude::*;
use crate::msg::checksum::{checksum, crc16_arc};
use crate::msg::params::{declared_len, lemma_param_round_trip, Param};
use crate::msg::serialization::{append, eof_error, BinarySerializeError, ErrorKind};
use crate::msg::wire::{
    le_bytes, le_value, lemma_le_bytes_len, lemma_le_value_bound, lemma_le_value_of_bytes,
    lemma_pow256_values, push_le, value_le,
};

verus! {

/// How many bytes a payload takes besides its parameters: the message
/// identifier, the length and the checksum.
pub const PAYLOAD_FRAME_LEN: usize = 5;

/// The payload of a frame.
pub struct Payload {
    pub msg_id: u8,
    /// The length field as read. On writing, the total length of the
    /// parameters is written in its place.
    pub unencrypted_length: u16,
    pub params: Vec<Param>,
    pub crc: u16,
}

/// What a payload holds.
pub struct PayloadView {
    pub msg_id: u8,
    pub unencrypted_length: u16,
    pub params: Seq<Param>,
    pub crc: u16,
}

/// The parameters on the wire, one after the other.
pub open spec fn params_bytes(params: Seq<Param>) -> Seq<u8>
    decreases params.len(),
{
    if params.len() == 0 {
        Seq::empty()
    } else {
        params[0].spec_bytes() + params_bytes(params.drop_first())
    }
}

/// The parameter records that fill `body` from end to end, in order; the
/// error of the first record that does not read.
pub open spec fn parse_params(body: Seq<u8>) -> Result<Seq<Param>, BinarySerializeError>
    decreases body.len(),
{
    if body.len() == 0 {
        Ok(Seq::empty())
    } else {
        match Param::spec_from_bytes(body) {
            Err(e) => Err(e),
            Ok(p) => match parse_params(body.skip(4 + declared_len(body) as int)) {
                Err(e) => Err(e),
                Ok(rest) => Ok(seq![p] + rest),
            },
        }
    }
}

/// Every parameter has the identifier that its value is registered under.
pub open spec fn all_well_formed(params: Seq<Param>) -> bool {
    forall|i: int| 0 <= i < params.len() ==> (#[trigger] params[i]).well_formed()
}

impl PayloadView {
    /// The payload on the wire: message identifier, total length of the
    /// parameters modulo 2^16, the parameters in order, the checksum.
    pub open spec fn spec_bytes(self) -> Seq<u8> {
        seq![self.msg_id] + le_bytes(params_bytes(self.params).len(), 2) + params_bytes(
            self.params,
        ) + le_bytes(self.crc as nat, 2)
    }

    /// What `bytes` read as: the first byte is the message identifier, the
    /// next two the length field, the last two the checksum, and what lies
    /// between is parameter records from end to end. The length field is
    /// not used to find the parameters.
    pub open spec fn spec_from_bytes(bytes: Seq<u8>) -> Result<PayloadView, BinarySerializeError> {
        if bytes.len() < 5 {
            Err(eof_error(0, 5, bytes.len()))
        } else {
            match parse_params(bytes.subrange(3, bytes.len() - 2)) {
                Err(e) => Err(e),
                Ok(params) => Ok(
                    PayloadView {
                        msg_id: bytes[0],
                        unencrypted_length: le_value(bytes.subrange(1, 3)) as u16,
                        params,
                        crc: le_value(bytes.subrange(bytes.len() - 2, bytes.len() as int)) as u16,
                    },
                ),
            }
        }
    }
}

impl View for Payload {
    type V = PayloadView;

    open spec fn view(&self) -> PayloadView {
        PayloadView {
            msg_id: self.msg_id,
            unencrypted_length: self.unencrypted_length,
            params: self.params@,
            crc: self.crc,
        }
    }
}

/// Appending a parameter appends its bytes.
pub proof fn lemma_params_bytes_push(params: Seq<Param>, p: Param)
    ensures
        params_bytes(params.push(p)) == params_bytes(params) + p.spec_bytes(),
    decreases params.len(),
{
    if params.len() == 0 {
        assert(params_bytes(params.push(p).drop_first()) =~= Seq::<u8>::empty());
    } else {
        lemma_params_bytes_push(params.drop_first(), p);
        assert(params.push(p).drop_first() =~= params.drop_first().push(p));
    }
}

/// Parameters whose identifiers match their values read back as they were
/// written, in the same order.
pub proof fn lemma_params_round_trip(params: Seq<Param>)
    requires
        all_well_formed(params),
    ensures
        parse_params(params_bytes(params)) == Ok::<Seq<Param>, BinarySerializeError>(params),
    decreases params.len(),
{
    if params.len() > 0 {
        let p = params[0];
        let tail = params_bytes(params.drop_first());
        lemma_param_round_trip(p, tail);
        lemma_params_round_trip(params.drop_first());
        let b = params_bytes(params);
        lemma_le_bytes_len(p.id as nat, 2);
        assert(b.skip(4 + declared_len(b) as int) =~= tail);
        assert(seq![p] + params.drop_first() =~= params);
    } else {
        assert(params =~= Seq::<Param>::empty());
    }
}

impl Payload {
    /// A payload with message identifier zero and no parameters.
    pub fn new() -> (p: Self)
        ensures
            p@ == (PayloadView {
                msg_id: 0,
                unencrypted_length: 0,
                params: Seq::empty(),
                crc: 0,
            }),
    {
        Payload { msg_id: 0, unencrypted_length: 0, params: Vec::new(), crc: 0 }
    }

    /// Adds a parameter behind those already there, and hands the payload
    /// back for the next call.
    pub fn add_param(&mut self, param: Param) -> (r: &mut Self)
        ensures
            r@ == (PayloadView { params: old(self)@.params.push(param), ..old(self)@ }),
            *final(self) == *final(r),
    {
        self.params.push(param);
        self
    }

    /// The parameters in order.
    pub fn get_params(&self) -> (params: &Vec<Param>)
        ensures
            params@ == self@.params,
    {
        &self.params
    }

    /// Sets the checksum to that of `buf`.
    pub fn calc_crc(&mut self, buf: &[u8])
        ensures
            final(self)@ == (PayloadView { crc: crc16_arc(buf@), ..old(self)@ }),
    {
        self.crc = checksum(buf);
    }

    /// Whether the checksum held is that of `guarded`, the bytes it is
    /// meant to guard. A payload whose checksum does not match them is
    /// corrupt.
    pub fn crc_matches(&self, guarded: &[u8]) -> (b: bool)
        ensures
            b == (self@.crc == crc16_arc(guarded@)),
    {
        self.crc == checksum(guarded)
    }

    /// Appends the message identifier, the length field and the
    /// parameters to `out`: the payload without its checksum.
    pub fn write_body(&self, out: &mut Vec<u8>)
        ensures
            final(out)@ == old(out)@ + seq![self.msg_id] + le_bytes(
                params_bytes(self@.params).len(),
                2,
            ) + params_bytes(self@.params),
    {
        let mut body: Vec<u8> = Vec::new();
        let mut i: usize = 0;
        while i < self.params.len()
            invariant
                i <= self.params@.len(),
                body@ == params_bytes(self.params@.take(i as int)),
            decreases self.params@.len() - i,
        {
            proof {
                lemma_params_bytes_push(self.params@.take(i as int), self.params@[i as int]);
                assert(self.params@.take(i as int).push(self.params@[i as int])
                    =~= self.params@.take(i + 1));
            }
            self.params[i].write_to(&mut body);
            i = i + 1;
        }
        proof {
            assert(self.params@.take(i as int) =~= self.params@);
        }
        out.push(self.msg_id);
        push_le(out, body.len() as u128, 2);
        append(out, body.as_slice());
    }

    /// The payload on the wire: message identifier, total length of the
    /// parameters, the parameters in order, the checksum as it stands.
    pub fn to_bytes(self) -> (bytes: Vec<u8>)
        ensures
            bytes@ == self@.spec_bytes(),
    {
        let mut buf: Vec<u8> = Vec::new();
        self.write_body(&mut buf);
        push_le(&mut buf, self.crc as u128, 2);
        buf
    }

    /// Reads a payload that fills `bytes`: message identifier, length
    /// field, parameter records up to the last two bytes, checksum. The
    /// checksum is kept, not verified.
    pub fn from_bytes(bytes: &[u8]) -> (r: Result<Payload, BinarySerializeError>)
        ensures
            match r {
                Ok(p) => PayloadView::spec_from_bytes(bytes@) == Ok::<
                    PayloadView,
                    BinarySerializeError,
                >(p@),
                Err(e) => PayloadView::spec_from_bytes(bytes@) == Err::<
                    PayloadView,
                    BinarySerializeError,
                >(e),
            },
    {
        let total = bytes.len();
        if total < PAYLOAD_FRAME_LEN {
            return Err(
                BinarySerializeError {
                    kind: ErrorKind::UnexpectedEof { need: PAYLOAD_FRAME_LEN, have: total, pos: 0 },
                },
            );
        }
        proof {
            lemma_pow256_values();
            lemma_le_value_bound(bytes@.subrange(1, 3));
            lemma_le_value_bound(bytes@.subrange(total - 2, total as int));
        }
        let msg_id = bytes[0];
        let unencrypted_length = value_le(&bytes[1..3]) as u16;
        let crc = value_le(&bytes[total - 2..total]) as u16;
        let end = total - 2;
        let ghost body = bytes@.subrange(3, end as int);
        let mut params: Vec<Param> = Vec::new();
        let mut index: usize = 3;
        proof {
            assert(body.skip(0) =~= body);
        }
        while index < end
            invariant
                3 <= index <= end,
                end == bytes@.len() - 2,
                body == bytes@.subrange(3, end as int),
                parse_params(body) == match parse_params(body.skip(index - 3)) {
                    Ok(rest) => Ok::<Seq<Param>, BinarySerializeError>(params@ + rest),
                    Err(e) => Err(e),
                },
            decreases end - index,
        {
            let ghost cur = body.skip(index - 3);
            proof {
                assert(bytes@.subrange(index as int, end as int) =~= cur);
                lemma_pow256_values();
                lemma_le_value_bound(cur.subrange(2, 4));
            }
            match Param::from_bytes(&bytes[index..end]) {
                Err(e) => { return Err(e); },
                Ok(param) => {
                    let len = value_le(&bytes[index + 2..index + 4]) as usize;
                    proof {
                        assert(bytes@.subrange(index + 2, index + 4) =~= cur.subrange(2, 4));
                        let next = cur.skip(4 + declared_len(cur) as int);
                        assert(next =~= body.skip(index + 4 + len - 3));
                        match parse_params(next) {
                            Ok(rest) => {
                                assert(params@.push(param) + rest =~= params@ + (seq![param]
                                    + rest));
                            },
                            Err(_) => {},
                        }
                    }
                    params.push(param);
                    index = index + 4 + len;
                },
            }
        }
        Ok(Payload { msg_id, unencrypted_length, params, crc })
    }
}

/// A payload whose parameters have matching identifiers reads back with
/// the same message identifier, the same parameters in the same order and
/// the same checksum. The length field reads back as the total length of
/// the parameters modulo 2^16.
pub proof fn lemma_payload_round_trip(v: PayloadView)
    requires
        all_well_formed(v.params),
    ensures
        PayloadView::spec_from_bytes(v.spec_bytes()) == Ok::<PayloadView, BinarySerializeError>(
            PayloadView {
                unencrypted_length: le_value(le_bytes(params_bytes(v.params).len(), 2)) as u16,
                ..v
            },
        ),
        params_bytes(v.params).len() < 0x1_0000 ==> le_value(
            le_bytes(params_bytes(v.params).len(), 2),
        ) == params_bytes(v.params).len(),
{
    let pb = params_bytes(v.params);
    let b = v.spec_bytes();
    lemma_le_bytes_len(pb.len(), 2);
    lemma_le_bytes_len(v.crc as nat, 2);
    lemma_pow256_values();
    lemma_le_value_of_bytes(v.crc as nat, 2);
    if pb.len() < 0x1_0000 {
        lemma_le_value_of_bytes(pb.len(), 2);
    }
    lemma_params_round_trip(v.params);
    assert(b.subrange(3, b.len() - 2) =~= pb);
    assert(b.subrange(1, 3) =~= le_bytes(pb.len(), 2));
    assert(b.subrange(b.len() - 2, b.len() as int) =~= le_bytes(v.crc as nat, 2));
}

} // verus!
