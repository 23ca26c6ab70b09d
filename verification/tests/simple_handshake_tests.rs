use shared_protocol::bootstrap::{
    complete_simple_server, respond_to_simple_client_hello, BootstrapClientConfig, BootstrapConfig,
    BootstrapError, BootstrapMessage, BootstrapMessageKind, BootstrapServerConfig,
    ClientSecurityConfig, PqSimpleServerBootstrapConfig, ServerSecurityConfig,
    SimpleClientBootstrapState, SimpleClientHello, SimpleServerHello,
};
use shared_protocol::protection::{ProtectionProfileKind, StreamDirection};
use shared_protocol::protocol::StreamId;

const CLIENT_HELLO_FRAME: &[u8] = b"client hello frame";
const SERVER_HELLO_FRAME: &[u8] = b"server hello frame";

fn configs(server_id: &str) -> (BootstrapClientConfig, BootstrapServerConfig) {
    let bootstrap = BootstrapConfig::default();
    let stream_id = StreamId(9);
    let direction = StreamDirection::ClientToServer;
    (
        BootstrapClientConfig { stream_id, direction, bootstrap, security: ClientSecurityConfig::PqSimple },
        BootstrapServerConfig {
            stream_id,
            direction,
            bootstrap,
            security: ServerSecurityConfig::PqSimple {
                bootstrap: PqSimpleServerBootstrapConfig { server_id: server_id.to_string() },
            },
        },
    )
}

#[test]
fn simple_bootstrap_round_trip_completes() {
    let (client_config, server_config) = configs("simple-server");
    let (client, client_hello) = SimpleClientBootstrapState::start(client_config, [5; 16], [6; 64]);
    let (server_hello, shared) = respond_to_simple_client_hello(
        &server_config,
        BootstrapMessage::SimpleClientHello(client_hello.clone()),
        [7; 16],
        [8; 64],
    )
    .unwrap();
    let server_done = complete_simple_server(
        &server_config,
        client_hello.client_nonce,
        &server_hello,
        shared,
        CLIENT_HELLO_FRAME,
        SERVER_HELLO_FRAME,
    );
    let client_done = client
        .handle_server_hello(BootstrapMessage::SimpleServerHello(server_hello), CLIENT_HELLO_FRAME, SERVER_HELLO_FRAME)
        .unwrap();

    assert_eq!(client_done.root, server_done.root);
    assert_eq!(client_done.server_id, "simple-server");
    assert_eq!(server_done.client_id, "pq_simple_v1_client");
    assert_eq!(client_done.protection_profile, ProtectionProfileKind::PqSimpleV1);
    assert_eq!(client_done.client_nonce, [5; 16]);
    assert_eq!(server_done.server_nonce, [7; 16]);
}

#[test]
fn simple_server_falls_back_to_default_id_and_roots_depend_on_frames() {
    let (client_config, server_config) = configs("");
    let (client, client_hello) = SimpleClientBootstrapState::start(client_config, [1; 16], [2; 64]);
    let (server_hello, shared) =
        respond_to_simple_client_hello(&server_config, BootstrapMessage::SimpleClientHello(client_hello), [3; 16], [4; 64])
            .unwrap();
    assert_eq!(server_hello.server_id, "pq_simple_v1_server");
    let a = client
        .handle_server_hello(BootstrapMessage::SimpleServerHello(server_hello.clone()), CLIENT_HELLO_FRAME, SERVER_HELLO_FRAME)
        .unwrap();
    let b = client
        .handle_server_hello(BootstrapMessage::SimpleServerHello(server_hello), CLIENT_HELLO_FRAME, b"another frame")
        .unwrap();
    assert_ne!(a.root, b.root);
    assert_ne!(a.root, shared);
}

#[test]
fn simple_handshake_refusals() {
    let (client_config, server_config) = configs("s");
    let (client, client_hello) = SimpleClientBootstrapState::start(client_config, [1; 16], [2; 64]);
    let wrong_stream = SimpleClientHello { stream_id: StreamId(10), ..client_hello.clone() };
    assert_eq!(
        respond_to_simple_client_hello(&server_config, BootstrapMessage::SimpleClientHello(wrong_stream), [3; 16], [4; 64]),
        Err(BootstrapError::UnexpectedStreamId { expected: StreamId(9), actual: StreamId(10) })
    );
    let bad_key = SimpleClientHello { client_ephemeral_kem_public_key: vec![1, 2, 3], ..client_hello.clone() };
    assert_eq!(
        respond_to_simple_client_hello(&server_config, BootstrapMessage::SimpleClientHello(bad_key), [3; 16], [4; 64]),
        Err(BootstrapError::InvalidKemPublicKey)
    );
    let short = SimpleServerHello {
        stream_id: StreamId(9),
        server_id: "s".to_string(),
        server_nonce: [0; 16],
        encapsulated_shared_secret: vec![0; 10],
    };
    assert_eq!(
        client.handle_server_hello(BootstrapMessage::SimpleServerHello(short), CLIENT_HELLO_FRAME, SERVER_HELLO_FRAME),
        Err(BootstrapError::InvalidKemCiphertext)
    );
    assert_eq!(
        client.handle_server_hello(BootstrapMessage::SimpleClientHello(client_hello), CLIENT_HELLO_FRAME, SERVER_HELLO_FRAME),
        Err(BootstrapError::UnexpectedMessageKind {
            expected: BootstrapMessageKind::SimpleServerHello,
            actual: BootstrapMessageKind::SimpleClientHello,
        })
    );
}
