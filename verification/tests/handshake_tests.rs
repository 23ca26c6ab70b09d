use shared_protocol::bootstrap::{
    BootstrapClientConfig, ClientSecurityConfig, MutualClientBootstrapState,
    issue_client_credential, issue_server_identity, unsigned_client_credential,
    unsigned_server_identity, BootstrapConfig, BootstrapError, BootstrapMessage, BootstrapMessageKind,
    BootstrapServerConfig, ClientFinish, ClientHello, CredentialScope, IssuedClientCredential,
    MutualServerBootstrapState, ReplayCache, ServerIdentityBundle, ServerSecurityConfig,
};
use shared_protocol::protection::StreamDirection;
use shared_protocol::protocol::StreamId;

const IDENTITY_BYTES: &[u8] = b"identity";
const CREDENTIAL_BYTES: &[u8] = b"credential";

fn identity() -> ServerIdentityBundle {
    issue_server_identity(unsigned_server_identity("server-a".to_string(), 1_000, 10_000, [7; 32]), [7; 32], IDENTITY_BYTES)
}

fn credential(server: &ServerIdentityBundle, client_id: &str) -> IssuedClientCredential {
    let scope = CredentialScope { stream_id: Some(StreamId(7)), allow_client_to_server: true, allow_server_to_client: true };
    let unsigned = unsigned_client_credential(server, client_id.to_string(), [3; 32], scope, 1_000, 2_000);
    issue_client_credential(unsigned, [7; 32], [3; 32], CREDENTIAL_BYTES)
}

fn server_config(revoked: Vec<String>) -> BootstrapServerConfig {
    BootstrapServerConfig {
        stream_id: StreamId(7),
        direction: StreamDirection::ClientToServer,
        bootstrap: BootstrapConfig::default(),
        security: ServerSecurityConfig::PqMutual {
            server_identity: identity(),
            server_signing_seed: [7; 32],
            revoked_client_ids: revoked,
        },
    }
}

fn client_kem() -> ml_kem::DecapsulationKey<ml_kem::MlKem768> {
    ml_kem::DecapsulationKey::<ml_kem::MlKem768>::from_seed(ml_kem::Seed::from([5u8; 64]))
}

fn hello(client_id: &str, kem_key: Vec<u8>) -> BootstrapMessage {
    let server = identity();
    BootstrapMessage::ClientHello(ClientHello {
        stream_id: StreamId(7),
        client_id: client_id.to_string(),
        client_nonce: [1; 16],
        client_ephemeral_kem_public_key: kem_key,
        client_credential: credential(&server, client_id).bundle,
    })
}

fn kem_public() -> Vec<u8> {
    ml_kem::KeyExport::to_bytes(client_kem().encapsulation_key()).to_vec()
}

#[test]
fn server_answers_a_valid_hello_and_refuses_its_replay() {
    let mut cache = ReplayCache::default();
    let (state, server_hello) = MutualServerBootstrapState::respond_to_client_hello(
        server_config(vec![]),
        &mut cache,
        hello("client-a", kem_public()),
        1_500,
        [2; 16],
        [9; 64],
        IDENTITY_BYTES,
        CREDENTIAL_BYTES,
    )
    .unwrap();
    assert_eq!(server_hello.stream_id, StreamId(7));
    assert_eq!(server_hello.server_id, "server-a");
    assert_eq!(server_hello.server_nonce, [2; 16]);
    assert_eq!(server_hello.server_identity, identity());
    assert_eq!(state.server_hello, server_hello);
    assert_eq!(server_hello.server_ephemeral_kem_public_key.len(), 1184);
    // The client decapsulates the same shared secret.
    let shared = ml_kem::Decapsulate::decapsulate_slice(
        &client_kem(),
        &server_hello.encapsulated_shared_secret_to_client,
    )
    .unwrap();
    assert_eq!(shared.as_slice(), &state.client_shared_secret[..]);

    let replay = MutualServerBootstrapState::respond_to_client_hello(
        server_config(vec![]),
        &mut cache,
        hello("client-a", kem_public()),
        1_600,
        [2; 16],
        [9; 64],
        IDENTITY_BYTES,
        CREDENTIAL_BYTES,
    );
    assert!(matches!(replay, Err(BootstrapError::ReplayDetected)));
}

#[test]
fn server_refuses_bad_hellos_in_order() {
    let mut cache = ReplayCache::default();
    let wrong_kind = MutualServerBootstrapState::respond_to_client_hello(
        server_config(vec![]),
        &mut cache,
        BootstrapMessage::ClientFinish(ClientFinish {
            stream_id: StreamId(7),
            encapsulated_shared_secret_to_server: vec![],
            transcript_signature: vec![],
        }),
        1_500,
        [2; 16],
        [9; 64],
        IDENTITY_BYTES,
        CREDENTIAL_BYTES,
    );
    assert!(matches!(
        wrong_kind,
        Err(BootstrapError::UnexpectedMessageKind {
            expected: BootstrapMessageKind::ClientHello,
            actual: BootstrapMessageKind::ClientFinish
        })
    ));
    let revoked = MutualServerBootstrapState::respond_to_client_hello(
        server_config(vec!["client-a".to_string()]),
        &mut cache,
        hello("client-a", kem_public()),
        1_500,
        [2; 16],
        [9; 64],
        IDENTITY_BYTES,
        CREDENTIAL_BYTES,
    );
    assert!(matches!(revoked, Err(BootstrapError::RevokedClientCredential)));
    let bad_signature = MutualServerBootstrapState::respond_to_client_hello(
        server_config(vec![]),
        &mut cache,
        hello("client-a", kem_public()),
        1_500,
        [2; 16],
        [9; 64],
        IDENTITY_BYTES,
        b"other",
    );
    assert!(matches!(bad_signature, Err(BootstrapError::InvalidClientCredentialSignature)));
    let bad_kem = MutualServerBootstrapState::respond_to_client_hello(
        server_config(vec![]),
        &mut cache,
        hello("client-a", vec![0xff; 1184]),
        1_500,
        [3; 16],
        [9; 64],
        IDENTITY_BYTES,
        CREDENTIAL_BYTES,
    );
    assert!(matches!(bad_kem, Err(BootstrapError::InvalidKemPublicKey)));
}

#[test]
fn full_mutual_handshake_agrees_on_the_root() {
    let server_identity = identity();
    let issued = credential(&server_identity, "client-a");
    let client_config = BootstrapClientConfig {
        stream_id: StreamId(7),
        direction: StreamDirection::ClientToServer,
        bootstrap: BootstrapConfig::default(),
        security: ClientSecurityConfig::PqMutual {
            issued_credential: issued,
            expected_server_identity: server_identity.clone(),
        },
    };
    let (mut client, client_hello) = MutualClientBootstrapState::start(client_config, [1; 16], [5; 64]).unwrap();
    assert_eq!(client_hello.client_id, "client-a");

    let mut cache = ReplayCache::default();
    let (server, server_hello) = MutualServerBootstrapState::respond_to_client_hello(
        server_config(vec![]),
        &mut cache,
        BootstrapMessage::ClientHello(client_hello),
        1_500,
        [2; 16],
        [9; 64],
        IDENTITY_BYTES,
        CREDENTIAL_BYTES,
    )
    .unwrap();

    // Frames stand for the encoded messages; both sides use the same bytes.
    let (ch, sh, uf, cf) = (b"client hello".to_vec(), b"server hello".to_vec(), b"unsigned finish".to_vec(), b"finish".to_vec());
    let unsigned = client
        .handle_server_hello(BootstrapMessage::ServerHello(server_hello), 1_500, IDENTITY_BYTES)
        .unwrap();
    assert!(unsigned.transcript_signature.is_empty());
    let finish = client.sign_client_finish(unsigned, &ch, &sh, &uf).unwrap();
    client.record_client_finish(&ch, &sh, &cf);

    let (server_done, server_finish) = server
        .handle_client_finish(BootstrapMessage::ClientFinish(finish.clone()), &ch, &sh, &uf, &cf)
        .unwrap();
    let client_done = client.handle_server_finish(BootstrapMessage::ServerFinish(server_finish.clone())).unwrap();
    assert_eq!(client_done, server_done);
    assert_eq!(client_done.client_id, "client-a");
    assert_eq!(client_done.server_id, "server-a");
    assert_eq!(client_done.server_nonce, [2; 16]);

    // A finish signed over another transcript is refused.
    let (server2, _) = MutualServerBootstrapState::respond_to_client_hello(
        server_config(vec![]),
        &mut ReplayCache::default(),
        hello("client-a", kem_public()),
        1_500,
        [2; 16],
        [9; 64],
        IDENTITY_BYTES,
        CREDENTIAL_BYTES,
    )
    .unwrap();
    assert!(matches!(
        server2.handle_client_finish(BootstrapMessage::ClientFinish(finish), &ch, b"other", &uf, &cf),
        Err(BootstrapError::InvalidClientTranscriptSignature)
    ));
    // A server finish over another transcript is refused by the client.
    let mut tampered = server_finish;
    tampered.transcript_signature[0] ^= 1;
    assert!(client.handle_server_finish(BootstrapMessage::ServerFinish(tampered)).is_err());
}
