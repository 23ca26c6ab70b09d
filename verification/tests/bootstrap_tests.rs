use shared_protocol::bootstrap::{ClientSecurityConfig, PqSimpleServerBootstrapConfig, ServerSecurityConfig, SessionRuntimeLimits};
use shared_protocol::protection::ProtectionProfileKind;
use shared_protocol::bootstrap::{
    BootstrapConfig, BootstrapError, CredentialScope, ReplayCache, ReplayCacheKey, BOOTSTRAP_NONCE_LEN,
};
use shared_protocol::bootstrap::{derive_pq_mutual_root, derive_pq_simple_root};
use shared_protocol::protection::StreamDirection;
use shared_protocol::protocol::StreamId;

#[test]
fn replay_cache_rejects_duplicate_triplets() {
    let mut cache = ReplayCache::default();
    let key = ReplayCacheKey {
        client_id: "client-a".to_string(),
        client_nonce: [1; BOOTSTRAP_NONCE_LEN],
        server_nonce: [2; BOOTSTRAP_NONCE_LEN],
    };
    cache.check_and_insert(key.clone(), 2_000, 1_500).unwrap();
    assert!(matches!(cache.check_and_insert(key, 2_000, 1_600), Err(BootstrapError::ReplayDetected)));
}

#[test]
fn replay_cache_forgets_expired_handshakes() {
    let mut cache = ReplayCache::default();
    let key = ReplayCacheKey { client_id: "c".to_string(), client_nonce: [1; 16], server_nonce: [2; 16] };
    cache.check_and_insert(key.clone(), 2_000, 1_500).unwrap();
    // another client or another nonce is a different handshake
    let other = ReplayCacheKey { client_nonce: [3; 16], ..key.clone() };
    cache.check_and_insert(other, 2_000, 1_500).unwrap();
    // past its expiry the first is forgotten and may be seen again
    assert!(cache.check_and_insert(key, 3_000, 2_001).is_ok());
}

#[test]
fn credential_scope_checks_stream_and_direction() {
    let scope = CredentialScope { stream_id: Some(StreamId(7)), allow_client_to_server: true, allow_server_to_client: false };
    assert!(scope.allows(StreamId(7), StreamDirection::ClientToServer));
    assert!(!scope.allows(StreamId(7), StreamDirection::ServerToClient));
    assert!(!scope.allows(StreamId(8), StreamDirection::ClientToServer));
    let any = CredentialScope { stream_id: None, ..scope };
    assert!(any.allows(StreamId(8), StreamDirection::ClientToServer));
}

#[test]
fn bootstrap_config_defaults() {
    let c = BootstrapConfig::default();
    assert_eq!(c.handshake_timeout_ms, 10_000);
    assert_eq!(c.max_bootstrap_frame_bytes, 65_536);
    assert_eq!(c.max_transport_frame_bytes, 2 * 1024 * 1024);
    assert_eq!(c.default_client_credential_lifetime_secs, 900);
}

#[test]
fn security_configs_pick_their_profiles() {
    assert_eq!(ClientSecurityConfig::PqSimple.protection_profile(), ProtectionProfileKind::PqSimpleV1);
    let server = ServerSecurityConfig::PqSimple { bootstrap: PqSimpleServerBootstrapConfig::default() };
    assert_eq!(server.protection_profile(), ProtectionProfileKind::PqSimpleV1);
    assert_eq!(PqSimpleServerBootstrapConfig::default().server_id, "pq_simple_v1_server");
    let limits = SessionRuntimeLimits::default();
    assert_eq!(limits.idle_read_timeout_ms, 30_000);
}

#[test]
fn derive_pq_mutual_root_is_deterministic() {
    let transcript_hash = [9; 32];
    let a = derive_pq_mutual_root(
        StreamId(7),
        StreamDirection::ServerToClient,
        &[1; 32],
        &[2; 32],
        &transcript_hash,
    );
    let b = derive_pq_mutual_root(
        StreamId(7),
        StreamDirection::ServerToClient,
        &[1; 32],
        &[2; 32],
        &transcript_hash,
    );
    assert_eq!(a, b);
}

fn expected_root(salt_label: &[u8], stream: u64, ikm: &[u8], transcript: &[u8; 32], info: &[u8]) -> [u8; 32] {
    let mut salt = salt_label.to_vec();
    salt.extend_from_slice(&stream.to_le_bytes());
    salt.extend_from_slice(transcript);
    let hk = hkdf::Hkdf::<sha2::Sha256>::new(Some(&salt), ikm);
    let mut out = [0u8; 32];
    hk.expand(info, &mut out).unwrap();
    out
}

#[test]
fn pq_roots_follow_the_hkdf_layout_and_differ_by_direction() {
    let t = [3u8; 32];
    let mut ikm = vec![1u8; 32];
    ikm.extend_from_slice(&[2u8; 32]);
    ikm.extend_from_slice(&t);
    let c2s = derive_pq_mutual_root(StreamId(5), StreamDirection::ClientToServer, &[1; 32], &[2; 32], &t);
    let s2c = derive_pq_mutual_root(StreamId(5), StreamDirection::ServerToClient, &[1; 32], &[2; 32], &t);
    assert_eq!(c2s, expected_root(b"pq_mutual_v1/root", 5, &ikm, &t, b"pq_mutual_v1/root/c2s"));
    assert_eq!(s2c, expected_root(b"pq_mutual_v1/root", 5, &ikm, &t, b"pq_mutual_v1/root/s2c"));
    assert_ne!(c2s, s2c);

    let mut simple_ikm = vec![4u8; 32];
    simple_ikm.extend_from_slice(&t);
    let simple = derive_pq_simple_root(StreamId(5), StreamDirection::ClientToServer, &[4; 32], &t);
    assert_eq!(simple, expected_root(b"pq_simple_v1/root", 5, &simple_ikm, &t, b"pq_simple_v1/root/c2s"));
}
