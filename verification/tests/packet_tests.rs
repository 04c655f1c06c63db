use network_semaphore::packet::{
    decode_request, decode_response, encode_request, encode_response, PacketError, RequestPacket,
    ResponsePacket,
};
use uuid::Uuid;

const ID: u128 = 0x0123_4567_89ab_cdef_fedc_ba98_7654_3210;

fn id_bytes() -> Vec<u8> {
    vec![
        0x01, 0x23, 0x45, 0x67, 0x89, 0xab, 0xcd, 0xef, 0xfe, 0xdc, 0xba, 0x98, 0x76, 0x54, 0x32, 0x10,
    ]
}

fn with_prefix(prefix: &[u8], tail: &[u8]) -> Vec<u8> {
    let mut v = prefix.to_vec();
    v.extend_from_slice(tail);
    v
}

#[test]
fn acquire_is_one_zero_byte() {
    assert_eq!(encode_request(&RequestPacket::Acquire), vec![0u8]);
}

#[test]
fn release_bytes_are_tag_length_and_uuid() {
    let bytes = encode_request(&RequestPacket::Release(ID));
    assert_eq!(bytes, with_prefix(&[1, 16], &id_bytes()));
}

#[test]
fn is_acquired_bytes_are_tag_length_and_uuid() {
    let bytes = encode_request(&RequestPacket::IsAcquired(ID));
    assert_eq!(bytes, with_prefix(&[2, 16], &id_bytes()));
}

#[test]
fn response_bytes() {
    assert_eq!(encode_response(&ResponsePacket::Failure), vec![1u8]);
    assert_eq!(encode_response(&ResponsePacket::Success(ID)), with_prefix(&[0, 16], &id_bytes()));
}

#[test]
fn bytes_match_bincode_with_serde_uuid() {
    let cfg = bincode::config::standard();
    let u = Uuid::from_u128(ID);
    let release = bincode::encode_to_vec((1u32, bincode::serde::Compat(u)), cfg).unwrap();
    assert_eq!(encode_request(&RequestPacket::Release(ID)), release);
    let ask = bincode::encode_to_vec((2u32, bincode::serde::Compat(u)), cfg).unwrap();
    assert_eq!(encode_request(&RequestPacket::IsAcquired(ID)), ask);
    let success = bincode::encode_to_vec((0u32, bincode::serde::Compat(u)), cfg).unwrap();
    assert_eq!(encode_response(&ResponsePacket::Success(ID)), success);
    let acquire = bincode::encode_to_vec(0u32, cfg).unwrap();
    assert_eq!(encode_request(&RequestPacket::Acquire), acquire);
}

#[test]
fn requests_read_back() {
    for p in [RequestPacket::Acquire, RequestPacket::Release(ID), RequestPacket::IsAcquired(7)] {
        let mut bytes = encode_request(&p);
        let n = bytes.len();
        bytes.extend_from_slice(&[9, 9, 9]);
        assert_eq!(decode_request(&bytes), Ok((p, n)));
    }
}

#[test]
fn responses_read_back() {
    for p in [ResponsePacket::Success(ID), ResponsePacket::Failure, ResponsePacket::Success(0)] {
        let bytes = encode_response(&p);
        assert_eq!(decode_response(&bytes), Ok((p, bytes.len())));
    }
}

#[test]
fn decoded_uuid_is_big_endian() {
    let bytes = with_prefix(&[1, 16], &id_bytes());
    assert_eq!(decode_request(&bytes), Ok((RequestPacket::Release(ID), 18)));
}

#[test]
fn empty_frame_is_bad_integer() {
    assert_eq!(decode_request(&[]), Err(PacketError::BadInteger));
    assert_eq!(decode_response(&[]), Err(PacketError::BadInteger));
}

#[test]
fn unknown_variant() {
    assert_eq!(decode_request(&[3]), Err(PacketError::UnknownVariant(3)));
    assert_eq!(decode_response(&[2]), Err(PacketError::UnknownVariant(2)));
    assert_eq!(decode_request(&[251, 0x10, 0x01]), Err(PacketError::UnknownVariant(0x110)));
}

#[test]
fn invalid_integer_marker() {
    assert_eq!(decode_request(&[253, 0, 0, 0, 0, 0, 0, 0, 0]), Err(PacketError::BadInteger));
    assert_eq!(decode_request(&[1, 254]), Err(PacketError::BadInteger));
    assert_eq!(decode_request(&[1]), Err(PacketError::BadInteger));
}

#[test]
fn truncated_identifier() {
    let bytes = with_prefix(&[1, 16], &id_bytes()[..15]);
    assert_eq!(decode_request(&bytes), Err(PacketError::Truncated));
}

#[test]
fn wrong_identifier_length() {
    let bytes = with_prefix(&[2, 15], &id_bytes()[..15]);
    assert_eq!(decode_request(&bytes), Err(PacketError::BadIdLength(15)));
}

#[test]
fn long_varint_tag_is_accepted() {
    let bytes = with_prefix(&[251, 1, 0, 16], &id_bytes());
    assert_eq!(decode_request(&bytes), Ok((RequestPacket::Release(ID), 20)));
}

#[test]
fn decoding_agrees_with_bincode() {
    let cfg = bincode::config::standard();
    let bytes = with_prefix(&[2, 16], &id_bytes());
    let (pair, n): ((u32, bincode::serde::Compat<Uuid>), usize) =
        bincode::decode_from_slice(&bytes, cfg).unwrap();
    assert_eq!(pair.0, 2);
    assert_eq!(decode_request(&bytes), Ok((RequestPacket::IsAcquired(pair.1 .0.as_u128()), n)));
}

#[test]
fn response_helpers() {
    assert_eq!(ResponsePacket::Success(5).granted_id(), Some(5));
    assert_eq!(ResponsePacket::Failure.granted_id(), None);
    assert!(ResponsePacket::Success(5).is_success());
    assert!(!ResponsePacket::Failure.is_success());
}
