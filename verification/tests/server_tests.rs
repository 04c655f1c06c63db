use network_semaphore::packet::{
    decode_response, encode_request, encode_response, PacketError, RequestPacket, ResponsePacket,
};
use network_semaphore::server::HolderRegistry;

#[test]
fn new_registry_is_empty() {
    let r = HolderRegistry::new();
    assert!(r.is_empty());
    assert!(r.ids().is_empty());
}

#[test]
fn from_ids_holds_each_once() {
    let r = HolderRegistry::from_ids(&vec![3, 1, 3, 2]);
    let mut ids = r.ids();
    ids.sort();
    assert_eq!(ids, vec![1, 2, 3]);
}

#[test]
fn acquire_grants_a_fresh_hold() {
    let mut r = HolderRegistry::from_ids(&vec![10, 20]);
    let h = r.handle_request(RequestPacket::Acquire);
    let id = match h.response {
        ResponsePacket::Success(id) => id,
        ResponsePacket::Failure => panic!("acquisition refused"),
    };
    assert!(id != 10 && id != 20);
    assert!(h.cancel_shutdown);
    assert!(h.persist);
    assert!(!h.shutdown_when_idle);
    assert_eq!(h.reply, encode_response(&h.response));
    assert_eq!(r.ids().len(), 3);
}

#[test]
fn acquired_hold_is_reported_then_released() {
    let mut r = HolderRegistry::new();
    let id = r.handle_request(RequestPacket::Acquire).response.granted_id().unwrap();
    let h = r.handle_request(RequestPacket::IsAcquired(id));
    assert_eq!(h.response, ResponsePacket::Success(id));
    assert!(!h.persist && !h.cancel_shutdown && !h.shutdown_when_idle);
    let h = r.handle_request(RequestPacket::Release(id));
    assert_eq!(h.response, ResponsePacket::Success(id));
    assert!(h.persist);
    assert!(h.shutdown_when_idle);
    assert!(r.is_empty());
    let h = r.handle_request(RequestPacket::IsAcquired(id));
    assert_eq!(h.response, ResponsePacket::Failure);
    let h = r.handle_request(RequestPacket::Release(id));
    assert_eq!(h.response, ResponsePacket::Failure);
    assert!(!h.persist && !h.shutdown_when_idle);
}

#[test]
fn release_with_others_left_does_not_start_shutdown() {
    let mut r = HolderRegistry::from_ids(&vec![1, 2]);
    let h = r.handle_request(RequestPacket::Release(1));
    assert_eq!(h.response, ResponsePacket::Success(1));
    assert!(h.persist);
    assert!(!h.shutdown_when_idle);
    assert_eq!(r.ids(), vec![2]);
}

#[test]
fn grant_refuses_a_held_identifier() {
    let mut r = HolderRegistry::from_ids(&vec![5]);
    assert!(!r.grant(5));
    assert!(r.grant(6));
    let mut ids = r.ids();
    ids.sort();
    assert_eq!(ids, vec![5, 6]);
}

#[test]
fn frame_is_served() {
    let mut r = HolderRegistry::from_ids(&vec![42]);
    let h = r.handle_frame(&encode_request(&RequestPacket::IsAcquired(42))).unwrap();
    assert_eq!(decode_response(&h.reply), Ok((ResponsePacket::Success(42), 18)));
}

#[test]
fn bad_frame_changes_nothing() {
    let mut r = HolderRegistry::from_ids(&vec![42]);
    assert!(matches!(r.handle_frame(&[7]), Err(PacketError::UnknownVariant(7))));
    assert!(matches!(r.handle_frame(&[2, 16, 1]), Err(PacketError::Truncated)));
    assert_eq!(r.ids(), vec![42]);
}

#[test]
fn run_holds_what_was_granted_and_not_released() {
    let mut r = HolderRegistry::from_ids(&vec![100]);
    let a = r.handle_request(RequestPacket::Acquire).response.granted_id().unwrap();
    let b = r.handle_request(RequestPacket::Acquire).response.granted_id().unwrap();
    r.handle_request(RequestPacket::Release(a));
    r.handle_request(RequestPacket::IsAcquired(b));
    r.handle_request(RequestPacket::Release(100));
    r.handle_request(RequestPacket::Release(a));
    assert_eq!(r.ids(), vec![b]);
}

#[test]
fn granted_identifiers_are_version_4_uuids() {
    let mut r = HolderRegistry::from_ids(&vec![1, 2, 3]);
    for _ in 0..8 {
        let id = r.handle_request(RequestPacket::Acquire).response.granted_id().unwrap();
        assert_eq!((id >> 76) & 0xf, 4);
        assert_eq!((id >> 62) & 0x3, 2);
    }
    assert_eq!(r.ids().len(), 11);
}
