use shared_protocol::protection::{
    classic_ref1_pair_from_static_secrets, ProtectionError, ProtectionProfile, ProtectionProfileKind,
    StreamDirection,
};
use shared_protocol::protocol::{
    CodecMode, EpochId, ItemId, Record, RecordFlags, RecordHeader, RecordType, SeqNo, StreamId,
    PROTOCOL_VERSION,
};

fn plain_record(stream_id: StreamId, seq_no: SeqNo, payload: &[u8]) -> Record {
    Record {
        header: RecordHeader {
            version: PROTOCOL_VERSION,
            stream_id,
            epoch_id: EpochId(0),
            seq_no,
            record_type: RecordType::ExactState,
            codec_mode: CodecMode::DirectExact,
            flags: RecordFlags::empty(),
            item_id: ItemId(3),
            payload_len: payload.len() as u32,
        },
        payload: payload.to_vec(),
        auth_tag: [0u8; shared_protocol::protocol::AUTH_TAG_LEN],
    }
}

fn through_profile<P: ProtectionProfile>(sender: &mut P, receiver: &mut P, record: Record) -> Result<Record, ProtectionError> {
    let protected = sender.protect(record)?;
    receiver.unprotect(protected)
}

#[test]
fn protection_profile_trait_round_trips_records() {
    let (mut sender, mut receiver) =
        classic_ref1_pair_from_static_secrets(StreamId(21), StreamDirection::ClientToServer, [4; 32], [77; 32]);
    assert_eq!(ProtectionProfile::kind(&sender), ProtectionProfileKind::ClassicRef1);
    let first = through_profile(&mut sender, &mut receiver, plain_record(StreamId(21), SeqNo(0), b"one")).unwrap();
    assert_eq!(first.payload, b"one");
    let second = through_profile(&mut sender, &mut receiver, plain_record(StreamId(21), SeqNo(1), b"two")).unwrap();
    assert_eq!(second.payload, b"two");
}

#[test]
fn protection_profile_trait_refuses_tampered_payload() {
    let (mut sender, mut receiver) =
        classic_ref1_pair_from_static_secrets(StreamId(22), StreamDirection::ServerToClient, [5; 32], [88; 32]);
    let mut protected = ProtectionProfile::protect(&mut sender, plain_record(StreamId(22), SeqNo(0), b"secret")).unwrap();
    protected.payload[0] ^= 1;
    assert_eq!(ProtectionProfile::unprotect(&mut receiver, protected), Err(ProtectionError::AuthenticationFailure));
}
