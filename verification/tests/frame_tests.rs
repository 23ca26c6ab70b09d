use shared_protocol::bootstrap::{frame_payload, to_frame_bytes, BootstrapConfig, BootstrapError, BootstrapMessageKind};

fn small_config(max: usize) -> BootstrapConfig {
    BootstrapConfig { max_bootstrap_frame_bytes: max, ..BootstrapConfig::default() }
}

#[test]
fn bootstrap_frame_carries_magic_then_payload() {
    let config = BootstrapConfig::default();
    let frame = to_frame_bytes(BootstrapMessageKind::ServerHello, &[1, 2, 3], &config).unwrap();
    assert_eq!(frame, b"WSBOOT1\0\x01\x02\x03".to_vec());
    assert_eq!(frame_payload(&frame, &config).unwrap(), vec![1, 2, 3]);
}

#[test]
fn bootstrap_frame_limits_and_magic_are_enforced() {
    let config = small_config(10);
    assert_eq!(
        to_frame_bytes(BootstrapMessageKind::ClientFinish, &[0; 3], &config),
        Err(BootstrapError::FrameTooLarge { kind: BootstrapMessageKind::ClientFinish, actual_len: 11, max_len: 10 })
    );
    assert!(to_frame_bytes(BootstrapMessageKind::ClientFinish, &[0; 2], &config).is_ok());
    assert_eq!(
        frame_payload(&[0; 11], &config),
        Err(BootstrapError::FrameTooLarge { kind: BootstrapMessageKind::ClientHello, actual_len: 11, max_len: 10 })
    );
    assert_eq!(frame_payload(b"WSBOOT", &config), Err(BootstrapError::InvalidFrameMagic));
    assert_eq!(frame_payload(b"WSBOOT2\0", &config), Err(BootstrapError::InvalidFrameMagic));
    assert_eq!(frame_payload(b"WSBOOT1\0", &config), Ok(vec![]));
}
