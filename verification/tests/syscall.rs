use kernel_core::syscall::{decode_service, service_id, SysCall};

#[test]
fn service_words() {
    assert_eq!(service_id(SysCall::ALLOC), 0);
    assert_eq!(service_id(SysCall::FREE), 1);
}

#[test]
fn decode_known_services() {
    assert_eq!(decode_service(0), Some(SysCall::ALLOC));
    assert_eq!(decode_service(1), Some(SysCall::FREE));
}

#[test]
fn decode_rejects_unknown_words() {
    assert_eq!(decode_service(2), None);
    assert_eq!(decode_service(usize::MAX), None);
}

#[test]
fn encoding_round_trips() {
    for s in [SysCall::ALLOC, SysCall::FREE].iter() {
        assert_eq!(decode_service(service_id(*s)), Some(*s));
    }
}
