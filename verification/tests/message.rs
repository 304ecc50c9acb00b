use mower_msg::msg::header::MsgType;
use mower_msg::msg::params::data::Param471;
use mower_msg::msg::params::{Param, ParamPayload};
use mower_msg::msg::serialization::{BinarySerializeError, ErrorKind};
use mower_msg::msg::Msg;

fn crc16(bytes: &[u8]) -> u16 {
    crc::Crc::<u16>::new(&crc::CRC_16_ARC).checksum(bytes)
}

fn eof(need: usize, have: usize, pos: usize) -> BinarySerializeError {
    BinarySerializeError { kind: ErrorKind::UnexpectedEof { need, have, pos } }
}

fn record() -> Param471 {
    Param471 {
        return_code: 1,
        current_cutting_height: 2,
        default_cutting_height: 3,
        information: 1,
    }
}

fn sample(msg_type: MsgType) -> Msg {
    let mut msg = Msg::new();
    msg.set_message_type(msg_type);
    msg.set_msg_id(5);
    msg.set_client_id(0x0A0B_0C0D);
    msg.add_param(Param::new(470, ParamPayload::P470));
    msg.add_param(Param::new(471, ParamPayload::P471(record())));
    msg
}

const ALL_TYPES: [MsgType; 8] = [
    MsgType::Undefined,
    MsgType::Connect,
    MsgType::ConnectAck,
    MsgType::Data,
    MsgType::DisConnect,
    MsgType::ConnectExtended,
    MsgType::ConnectExtendedAck,
    MsgType::DisConnectExtended,
];

#[test]
fn new_message_is_an_empty_data_message() {
    let msg = Msg::new();
    assert_eq!(msg.get_message_type(), MsgType::Data);
    assert_eq!(msg.get_msg_id(), 0);
    assert_eq!(msg.param_count(), 0);
    assert!(msg.get_body().is_empty());
}

#[test]
fn message_setters_and_getters() {
    let msg = sample(MsgType::ConnectAck);
    assert_eq!(msg.get_message_type(), MsgType::ConnectAck);
    assert_eq!(msg.get_msg_id(), 5);
    assert_eq!(msg.param_count(), 2);
    assert_eq!(*msg.get_param(0), Param::new(470, ParamPayload::P470));
    assert_eq!(*msg.get_param(1), Param::new(471, ParamPayload::P471(record())));
}

#[test]
fn empty_data_frame_is_exact() {
    let bytes = Msg::new().to_bytes().unwrap();
    let start = [0x01u8, 0x02, 3, 5, 0];
    let mut expected = start.to_vec();
    expected.extend_from_slice(&crc16(&start).to_le_bytes());
    expected.extend_from_slice(&[1, 0, 0, 0, 0x4F, 0x4D]);
    expected.extend_from_slice(&[0, 0, 0]);
    let guard = crc16(&expected);
    expected.extend_from_slice(&guard.to_le_bytes());
    assert_eq!(bytes, expected);
    assert_eq!(bytes.len(), 7 + 6 + 5);
}

#[test]
fn data_frame_with_parameters_is_exact() {
    let bytes = sample(MsgType::Data).to_bytes().unwrap();
    let start = [0x01u8, 0x02, 3, 17, 0];
    let mut expected = start.to_vec();
    expected.extend_from_slice(&crc16(&start).to_le_bytes());
    expected.extend_from_slice(&[0x0D, 0x0C, 0x0B, 0x0A, 0x4F, 0x4D]);
    expected.extend_from_slice(&[5, 12, 0, 0xD6, 0x01, 0, 0, 0xD7, 0x01, 4, 0, 1, 3, 2, 1]);
    let guard = crc16(&expected);
    expected.extend_from_slice(&guard.to_le_bytes());
    assert_eq!(bytes, expected);
}

#[test]
fn message_round_trips_for_every_type() {
    for t in ALL_TYPES {
        let msg = sample(t);
        let bytes = msg.to_bytes().unwrap();
        let back = Msg::from_bytes(&bytes).unwrap();
        assert_eq!(back.get_message_type(), t);
        assert_eq!(back.get_msg_id(), 5);
        assert_eq!(back.param_count(), 2);
        assert_eq!(*back.get_param(0), Param::new(470, ParamPayload::P470));
        assert_eq!(*back.get_param(1), Param::new(471, ParamPayload::P471(record())));
        assert!(back.get_body().is_empty());
        assert_eq!(back.to_bytes().unwrap(), bytes);
    }
}

#[test]
fn bytes_behind_the_frame_are_the_raw_body() {
    let mut bytes = sample(MsgType::ConnectExtended).to_bytes().unwrap();
    let frame_len = bytes.len();
    bytes.extend_from_slice(&[0xDE, 0xAD, 0xBE, 0xEF]);
    let back = Msg::from_bytes(&bytes).unwrap();
    assert_eq!(back.get_body(), &vec![0xDE, 0xAD, 0xBE, 0xEF]);
    assert_eq!(back.param_count(), 2);
    let again = back.to_bytes().unwrap();
    assert_eq!(again, bytes);
    assert_eq!(&again[..frame_len], &bytes[..frame_len]);
}

#[test]
fn changing_any_byte_of_a_frame_is_an_integrity_failure() {
    for t in ALL_TYPES {
        let bytes = sample(t).to_bytes().unwrap();
        for i in 0..bytes.len() {
            for mask in [0x01u8, 0x80, 0xFF, 0x5A] {
                let mut changed = bytes.clone();
                changed[i] ^= mask;
                match Msg::from_bytes(&changed) {
                    Err(BinarySerializeError {
                        kind: ErrorKind::ChecksumMismatch { stored, computed },
                    }) => assert_ne!(stored, computed),
                    Err(other) => panic!("byte {i} of {t:?}: {other:?}"),
                    Ok(_) => panic!("byte {i} of {t:?} went unnoticed"),
                }
            }
        }
    }
}

#[test]
fn header_checksum_mismatch_reports_both_values() {
    let mut bytes = Msg::new().to_bytes().unwrap();
    let good = crc16(&bytes[..5]);
    bytes[5] ^= 0xFF;
    let stored = u16::from_le_bytes([bytes[5], bytes[6]]);
    assert_eq!(
        Msg::from_bytes(&bytes).err(),
        Some(BinarySerializeError {
            kind: ErrorKind::ChecksumMismatch { stored, computed: good },
        })
    );
}

#[test]
fn payload_checksum_mismatch_reports_both_values() {
    let mut bytes = Msg::new().to_bytes().unwrap();
    let n = bytes.len();
    let good = crc16(&bytes[..n - 2]);
    bytes[n - 1] ^= 0x10;
    let stored = u16::from_le_bytes([bytes[n - 2], bytes[n - 1]]);
    assert_eq!(
        Msg::from_bytes(&bytes).err(),
        Some(BinarySerializeError {
            kind: ErrorKind::ChecksumMismatch { stored, computed: good },
        })
    );
}

#[test]
fn frame_cut_short_is_a_truncation() {
    let bytes = sample(MsgType::Data).to_bytes().unwrap();
    for n in 0..7usize {
        assert_eq!(Msg::from_bytes(&bytes[..n]).err(), Some(eof(7, n, 0)));
    }
    for n in 7..13usize {
        assert_eq!(Msg::from_bytes(&bytes[..n]).err(), Some(eof(6, n - 7, 7)));
    }
    for n in 13..bytes.len() {
        let err = Msg::from_bytes(&bytes[..n]).err().unwrap();
        assert_eq!(err, eof(17, n - 13, 13));
        assert_eq!(err.missing(), bytes.len() - n);
    }
    assert!(Msg::from_bytes(&bytes).is_ok());
}

#[test]
fn frame_whose_payload_has_no_room_for_its_own_frame_is_a_truncation() {
    let start = [0x01u8, 0x02, 0, 3, 0];
    let mut bytes = start.to_vec();
    bytes.extend_from_slice(&crc16(&start).to_le_bytes());
    bytes.extend_from_slice(&[0, 0, 0]);
    assert_eq!(Msg::from_bytes(&bytes).err(), Some(eof(5, 3, 0)));
}

#[test]
fn frame_with_unregistered_parameter_is_refused_after_its_checksums() {
    let start = [0x01u8, 0x02, 0, 9, 0];
    let mut bytes = start.to_vec();
    bytes.extend_from_slice(&crc16(&start).to_le_bytes());
    bytes.extend_from_slice(&[1, 4, 0, 0xE7, 0x03, 0, 0]);
    let guard = crc16(&bytes);
    bytes.extend_from_slice(&guard.to_le_bytes());
    assert_eq!(
        Msg::from_bytes(&bytes).err(),
        Some(BinarySerializeError { kind: ErrorKind::UnsupportedParam { id: 999 } })
    );
    let last = bytes.len() - 1;
    bytes[last] ^= 1;
    assert!(matches!(
        Msg::from_bytes(&bytes).err(),
        Some(BinarySerializeError { kind: ErrorKind::ChecksumMismatch { .. } })
    ));
}

#[test]
fn unknown_type_code_reads_as_a_frame_without_variable_header() {
    let start = [0x01u8, 0x02, 200, 5, 0];
    let mut bytes = start.to_vec();
    bytes.extend_from_slice(&crc16(&start).to_le_bytes());
    bytes.extend_from_slice(&[42, 0, 0]);
    let guard = crc16(&bytes);
    bytes.extend_from_slice(&guard.to_le_bytes());
    let msg = Msg::from_bytes(&bytes).unwrap();
    assert_eq!(msg.get_message_type(), MsgType::Undefined);
    assert_eq!(msg.get_msg_id(), 42);
    assert_eq!(msg.param_count(), 0);
}

#[test]
fn payload_too_long_for_the_length_field_is_refused() {
    let mut msg = Msg::new();
    for _ in 0..8191 {
        msg.add_param(Param::new(471, ParamPayload::P471(record())));
    }
    let bytes = msg.to_bytes().unwrap();
    assert_eq!(&bytes[3..5], &0xFFFDu16.to_le_bytes());
    assert_eq!(bytes.len(), 7 + 6 + 0xFFFD);
    assert_eq!(Msg::from_bytes(&bytes).unwrap().param_count(), 8191);

    msg.add_param(Param::new(470, ParamPayload::P470));
    assert_eq!(
        msg.to_bytes().err(),
        Some(BinarySerializeError { kind: ErrorKind::TooLong { len: 3 + 8191 * 8 + 4 } })
    );
}
