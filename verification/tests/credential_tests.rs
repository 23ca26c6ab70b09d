use shared_protocol::bootstrap::{
    issue_client_credential, issue_server_identity, unsigned_client_credential,
    unsigned_server_identity, validate_client_credential_bundle, validate_server_identity_bundle,
    BootstrapError, CredentialScope, IssuedClientCredential, ServerIdentityBundle,
    DEFAULT_CLOCK_SKEW_SECS,
};
use shared_protocol::protection::StreamDirection;
use shared_protocol::protocol::StreamId;

const IDENTITY_BYTES: &[u8] = b"server-a identity fields";
const CREDENTIAL_BYTES: &[u8] = b"client-a credential fields";

fn sample_scope() -> CredentialScope {
    CredentialScope { stream_id: Some(StreamId(7)), allow_client_to_server: true, allow_server_to_client: true }
}

fn sample_server_identity() -> ServerIdentityBundle {
    let unsigned = unsigned_server_identity("server-a".to_string(), 1_000, 10_000, [7; 32]);
    issue_server_identity(unsigned, [7; 32], IDENTITY_BYTES)
}

fn credential(scope: CredentialScope, issued: u64, expires: u64) -> IssuedClientCredential {
    let server_identity = sample_server_identity();
    let unsigned =
        unsigned_client_credential(&server_identity, "client-a".to_string(), [3; 32], scope, issued, expires);
    issue_client_credential(unsigned, [7; 32], [3; 32], CREDENTIAL_BYTES)
}

#[test]
fn client_credential_validation_rejects_expired_credentials() {
    let server_identity = sample_server_identity();
    let issued = credential(sample_scope(), 1_000, 1_100);
    assert!(matches!(
        validate_client_credential_bundle(
            &issued.bundle,
            &server_identity,
            StreamId(7),
            StreamDirection::ServerToClient,
            10_000,
            DEFAULT_CLOCK_SKEW_SECS,
            CREDENTIAL_BYTES,
        ),
        Err(BootstrapError::InvalidClientCredentialValidity)
    ));
}

#[test]
fn client_credential_validation_rejects_wrong_scope() {
    let server_identity = sample_server_identity();
    let issued = credential(
        CredentialScope { stream_id: Some(StreamId(99)), allow_client_to_server: true, allow_server_to_client: false },
        1_000,
        2_000,
    );
    assert!(matches!(
        validate_client_credential_bundle(
            &issued.bundle,
            &server_identity,
            StreamId(7),
            StreamDirection::ServerToClient,
            1_100,
            DEFAULT_CLOCK_SKEW_SECS,
            CREDENTIAL_BYTES,
        ),
        Err(BootstrapError::CredentialScopeRejected { .. })
    ));
}

#[test]
fn issued_identity_and_credential_validate() {
    let server_identity = sample_server_identity();
    assert_eq!(server_identity.server_signing_public_key.len(), 1952);
    assert_eq!(server_identity.self_signature.len(), 3309);
    assert_eq!(
        validate_server_identity_bundle(&server_identity, 5_000, DEFAULT_CLOCK_SKEW_SECS, IDENTITY_BYTES),
        Ok(())
    );
    let issued = credential(sample_scope(), 1_000, 2_000);
    assert_eq!(issued.client_signing_seed, [3; 32]);
    assert_eq!(
        validate_client_credential_bundle(
            &issued.bundle,
            &server_identity,
            StreamId(7),
            StreamDirection::ClientToServer,
            1_500,
            DEFAULT_CLOCK_SKEW_SECS,
            CREDENTIAL_BYTES,
        ),
        Ok(())
    );
}

#[test]
fn signatures_over_other_bytes_or_keys_are_refused() {
    let server_identity = sample_server_identity();
    assert_eq!(
        validate_server_identity_bundle(&server_identity, 5_000, DEFAULT_CLOCK_SKEW_SECS, b"other bytes"),
        Err(BootstrapError::InvalidServerIdentitySignature)
    );
    assert_eq!(
        validate_server_identity_bundle(&server_identity, 20_000, DEFAULT_CLOCK_SKEW_SECS, IDENTITY_BYTES),
        Err(BootstrapError::InvalidServerIdentityValidity)
    );
    let mut short_key = server_identity.clone();
    short_key.server_signing_public_key.pop();
    assert_eq!(
        validate_server_identity_bundle(&short_key, 5_000, DEFAULT_CLOCK_SKEW_SECS, IDENTITY_BYTES),
        Err(BootstrapError::InvalidSigningPublicKey)
    );
    let mut short_sig = server_identity.clone();
    short_sig.self_signature.truncate(10);
    assert_eq!(
        validate_server_identity_bundle(&short_sig, 5_000, DEFAULT_CLOCK_SKEW_SECS, IDENTITY_BYTES),
        Err(BootstrapError::InvalidSignatureEncoding)
    );

    let issued = credential(sample_scope(), 1_000, 2_000);
    let other_server = issue_server_identity(
        unsigned_server_identity("server-b".to_string(), 1_000, 10_000, [8; 32]),
        [8; 32],
        IDENTITY_BYTES,
    );
    assert_eq!(
        validate_client_credential_bundle(
            &issued.bundle,
            &other_server,
            StreamId(7),
            StreamDirection::ClientToServer,
            1_500,
            DEFAULT_CLOCK_SKEW_SECS,
            CREDENTIAL_BYTES,
        ),
        Err(BootstrapError::CredentialIssuerMismatch)
    );
    assert_eq!(
        validate_client_credential_bundle(
            &issued.bundle,
            &server_identity,
            StreamId(7),
            StreamDirection::ClientToServer,
            1_500,
            DEFAULT_CLOCK_SKEW_SECS,
            b"tampered",
        ),
        Err(BootstrapError::InvalidClientCredentialSignature)
    );
}
