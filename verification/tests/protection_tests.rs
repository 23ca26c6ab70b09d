use shared_protocol::protection::{
    classic_ref1_pair_from_static_secrets, ProtectionError, ProtectionProfileKind, RekeyPayload,
    StreamDirection, StreamProtector,
};
use shared_protocol::protocol::{
    CodecMode, EpochId, ItemId, Record, RecordFlags, RecordHeader, RecordType, SeqNo, StreamId,
    StreamState, AUTH_TAG_LEN, POST_REKEY_CONFIRM, PROTOCOL_VERSION, REKEY_PAYLOAD_LEN,
};

fn data_record(stream_id: StreamId, epoch_id: EpochId, seq_no: SeqNo, payload: &[u8]) -> Record {
    Record {
        header: RecordHeader {
            version: PROTOCOL_VERSION,
            stream_id,
            epoch_id,
            seq_no,
            record_type: RecordType::ExactState,
            codec_mode: CodecMode::DirectExact,
            flags: RecordFlags::empty(),
            item_id: ItemId(7),
            payload_len: payload.len() as u32,
        },
        payload: payload.to_vec(),
        auth_tag: [0; AUTH_TAG_LEN],
    }
}

fn rekey_record(stream_id: StreamId, epoch_id: EpochId, seq_no: SeqNo, payload: RekeyPayload) -> Record {
    Record {
        header: RecordHeader {
            version: PROTOCOL_VERSION,
            stream_id,
            epoch_id,
            seq_no,
            record_type: RecordType::Rekey,
            codec_mode: CodecMode::Plain,
            flags: RecordFlags::empty(),
            item_id: ItemId(0),
            payload_len: REKEY_PAYLOAD_LEN as u32,
        },
        payload: payload.encode().to_vec(),
        auth_tag: [0; AUTH_TAG_LEN],
    }
}

fn close_record(stream_id: StreamId, epoch_id: EpochId, seq_no: SeqNo) -> Record {
    Record {
        header: RecordHeader {
            version: PROTOCOL_VERSION,
            stream_id,
            epoch_id,
            seq_no,
            record_type: RecordType::Close,
            codec_mode: CodecMode::Plain,
            flags: RecordFlags::empty(),
            item_id: ItemId(0),
            payload_len: 0,
        },
        payload: Vec::new(),
        auth_tag: [0; AUTH_TAG_LEN],
    }
}

/// Fixed key material standing in for a seeded generator's output.
fn classic_pair(stream_id: StreamId, direction: StreamDirection, seed: u8) -> (StreamProtector, StreamProtector) {
    classic_ref1_pair_from_static_secrets(stream_id, direction, [seed; 32], [seed.wrapping_add(101); 32])
}

#[test]
fn classic_profile_round_trips() {
    let (mut sender, mut receiver) = classic_pair(StreamId(11), StreamDirection::ServerToClient, 9);
    let protected = sender
        .protect_record(data_record(StreamId(11), EpochId(0), SeqNo(0), b"alpha"))
        .unwrap();
    let recovered = receiver.unprotect_record(protected).unwrap();
    assert_eq!(recovered.payload, b"alpha");
    assert_eq!(receiver.stream_state(), StreamState::Established);
}

#[test]
fn pq_profile_round_trips() {
    let root = [19u8; 32];
    let mut sender = StreamProtector::from_bootstrap_root(
        ProtectionProfileKind::PqSimpleV1,
        StreamId(12),
        StreamDirection::ServerToClient,
        root,
    );
    let mut receiver = StreamProtector::from_bootstrap_root(
        ProtectionProfileKind::PqSimpleV1,
        StreamId(12),
        StreamDirection::ServerToClient,
        root,
    );
    let protected = sender
        .protect_record(data_record(StreamId(12), EpochId(0), SeqNo(0), b"beta"))
        .unwrap();
    let recovered = receiver.unprotect_record(protected).unwrap();
    assert_eq!(recovered.payload, b"beta");
    assert_eq!(receiver.stream_state(), StreamState::Established);
}

#[test]
fn pq_simple_profile_serializes_canonically() {
    let canonical = format!("\"{}\"", ProtectionProfileKind::PqSimpleV1.slug());
    assert_eq!(canonical, "\"pq_simple_v1\"");
}

#[test]
fn unexpected_sequence_fails_closed() {
    let (mut sender, mut receiver) = classic_pair(StreamId(13), StreamDirection::ServerToClient, 10);
    let protected = sender
        .protect_record(data_record(StreamId(13), EpochId(0), SeqNo(0), b"alpha"))
        .unwrap();
    receiver.unprotect_record(protected).unwrap();

    let error = receiver
        .unprotect_record(Record {
            header: RecordHeader {
                seq_no: SeqNo(0),
                ..data_record(StreamId(13), EpochId(0), SeqNo(0), b"beta").header
            },
            payload: b"beta".to_vec(),
            auth_tag: [0; AUTH_TAG_LEN],
        })
        .unwrap_err();
    assert!(matches!(
        error,
        ProtectionError::Validation(_)
            | ProtectionError::AuthenticationFailure
            | ProtectionError::UnexpectedSeqNo { .. }
    ));
    assert_eq!(receiver.stream_state(), StreamState::Closed);
}

#[test]
fn unexpected_epoch_fails_closed() {
    let (mut sender, mut receiver) = classic_pair(StreamId(14), StreamDirection::ServerToClient, 11);
    let protected = sender
        .protect_record(data_record(StreamId(14), EpochId(0), SeqNo(0), b"alpha"))
        .unwrap();
    let error = receiver
        .unprotect_record(Record {
            header: RecordHeader {
                epoch_id: EpochId(1),
                ..protected.header
            },
            payload: protected.payload,
            auth_tag: protected.auth_tag,
        })
        .unwrap_err();
    assert!(matches!(error, ProtectionError::UnexpectedEpoch { .. }));
    assert_eq!(receiver.stream_state(), StreamState::Closed);
}

#[test]
fn bad_tag_fails_closed() {
    let (mut sender, mut receiver) = classic_pair(StreamId(15), StreamDirection::ServerToClient, 12);
    let mut protected = sender
        .protect_record(data_record(StreamId(15), EpochId(0), SeqNo(0), b"alpha"))
        .unwrap();
    protected.auth_tag[0] ^= 0x55;
    let error = receiver.unprotect_record(protected).unwrap_err();
    assert_eq!(error, ProtectionError::AuthenticationFailure);
    assert_eq!(receiver.stream_state(), StreamState::Closed);
}

#[test]
fn rekey_transitions_to_new_epoch() {
    let (mut sender, mut receiver) = classic_pair(StreamId(16), StreamDirection::ServerToClient, 13);
    let rekey_payload = sender.rekey_payload_with_seed([0x5a; 32]);
    let protected_rekey = sender
        .protect_record(rekey_record(StreamId(16), EpochId(0), SeqNo(0), rekey_payload))
        .unwrap();
    let unprotected_rekey = receiver.unprotect_record(protected_rekey).unwrap();
    assert_eq!(RekeyPayload::decode(&unprotected_rekey.payload).unwrap(), rekey_payload);
    assert_eq!(
        receiver.stream_state(),
        StreamState::RekeyPending {
            next_epoch_id: EpochId(1)
        }
    );

    let protected_data = sender
        .protect_record(data_record(StreamId(16), EpochId(1), SeqNo(0), b"epoch1"))
        .unwrap();
    assert!(protected_data.header.flags.contains(POST_REKEY_CONFIRM));
    let recovered = receiver.unprotect_record(protected_data).unwrap();
    assert_eq!(recovered.payload, b"epoch1");
    assert_eq!(receiver.current_epoch_id(), EpochId(1));
    assert_eq!(receiver.expected_seq_no(), SeqNo(1));
    assert_eq!(receiver.stream_state(), StreamState::Established);
}

#[test]
fn close_record_closes_stream() {
    let (mut sender, mut receiver) = classic_pair(StreamId(17), StreamDirection::ServerToClient, 14);
    let protected = sender
        .protect_record(close_record(StreamId(17), EpochId(0), SeqNo(0)))
        .unwrap();
    receiver.unprotect_record(protected).unwrap();
    assert_eq!(receiver.stream_state(), StreamState::Closed);
}

// Own tests.

#[test]
fn classic_pair_depends_on_both_secrets() {
    let (mut a, _) = classic_ref1_pair_from_static_secrets(StreamId(1), StreamDirection::ClientToServer, [1; 32], [2; 32]);
    let (_, mut b) = classic_ref1_pair_from_static_secrets(StreamId(1), StreamDirection::ClientToServer, [1; 32], [3; 32]);
    let protected = a.protect_record(data_record(StreamId(1), EpochId(0), SeqNo(0), b"x")).unwrap();
    assert_eq!(b.unprotect_record(protected).unwrap_err(), ProtectionError::AuthenticationFailure);
}

#[test]
fn protected_payload_differs_from_plaintext() {
    let (mut sender, _) = classic_pair(StreamId(2), StreamDirection::ClientToServer, 3);
    let protected = sender
        .protect_record(data_record(StreamId(2), EpochId(0), SeqNo(0), b"plaintext!"))
        .unwrap();
    assert_ne!(protected.payload, b"plaintext!".to_vec());
    assert_eq!(protected.payload.len(), 10);
}
