use shared_protocol::compress::CompressError;
use shared_protocol::protocol::{
    CodecMode, EpochId, ItemId, Record, RecordFlags, RecordHeader, RecordType, SeqNo, StreamId,
    ValidationError, WireError, AUTH_TAG_LEN, CLOSE_CODE_LEN, HEADER_LEN, IS_EVICT, IS_INVALIDATE,
    PAYLOAD_ZSTD, PAYLOAD_ZSTD_DICT, PROTOCOL_VERSION,
};

fn base_data_header() -> RecordHeader {
    RecordHeader {
        version: PROTOCOL_VERSION,
        stream_id: StreamId(7),
        epoch_id: EpochId(0),
        seq_no: SeqNo(0),
        record_type: RecordType::ExactState,
        codec_mode: CodecMode::DirectExact,
        flags: RecordFlags::empty(),
        item_id: ItemId(42),
        payload_len: 3,
    }
}

#[test]
fn aad_layout_matches_spec_size() {
    assert_eq!(base_data_header().aad_bytes().len(), HEADER_LEN);
}

#[test]
fn valid_data_header_passes_validation() {
    assert!(base_data_header().validate().is_ok());
}

#[test]
fn invalid_data_flags_are_rejected() {
    let mut header = base_data_header();
    header.flags.insert(IS_EVICT);
    assert_eq!(
        header.validate().unwrap_err(),
        ValidationError::InvalidDataFlags
    );
}

#[test]
fn evict_header_with_zero_payload_is_valid() {
    let mut flags = RecordFlags::empty();
    flags.insert(IS_EVICT);
    let header = RecordHeader {
        version: PROTOCOL_VERSION,
        stream_id: StreamId(7),
        epoch_id: EpochId(0),
        seq_no: SeqNo(0),
        record_type: RecordType::ExactState,
        codec_mode: CodecMode::Plain,
        flags,
        item_id: ItemId(42),
        payload_len: 0,
    };
    assert!(header.validate().is_ok());
}

#[test]
fn invalidate_header_with_zero_payload_is_valid() {
    let mut flags = RecordFlags::empty();
    flags.insert(IS_INVALIDATE);
    let header = RecordHeader {
        version: PROTOCOL_VERSION,
        stream_id: StreamId(7),
        epoch_id: EpochId(0),
        seq_no: SeqNo(0),
        record_type: RecordType::ExactState,
        codec_mode: CodecMode::Plain,
        flags,
        item_id: ItemId(42),
        payload_len: 0,
    };
    assert!(header.validate().is_ok());
}

#[test]
fn rekey_requires_fixed_payload_len() {
    let header = RecordHeader {
        version: PROTOCOL_VERSION,
        stream_id: StreamId(7),
        epoch_id: EpochId(0),
        seq_no: SeqNo(0),
        record_type: RecordType::Rekey,
        codec_mode: CodecMode::Plain,
        flags: RecordFlags::empty(),
        item_id: ItemId(0),
        payload_len: 0,
    };
    assert_eq!(
        header.validate().unwrap_err(),
        ValidationError::InvalidControlPayloadContract
    );
}

#[test]
fn source_meta_requires_non_empty_payload() {
    let header = RecordHeader {
        version: PROTOCOL_VERSION,
        stream_id: StreamId(7),
        epoch_id: EpochId(0),
        seq_no: SeqNo(0),
        record_type: RecordType::SourceMeta,
        codec_mode: CodecMode::Plain,
        flags: RecordFlags::empty(),
        item_id: ItemId(9),
        payload_len: 12,
    };
    assert!(header.validate().is_ok());
}

#[test]
fn close_accepts_empty_or_two_byte_payloads() {
    let base = RecordHeader {
        version: PROTOCOL_VERSION,
        stream_id: StreamId(7),
        epoch_id: EpochId(0),
        seq_no: SeqNo(0),
        record_type: RecordType::Close,
        codec_mode: CodecMode::Plain,
        flags: RecordFlags::empty(),
        item_id: ItemId(0),
        payload_len: 0,
    };
    assert!(base.validate().is_ok());

    let with_reason = RecordHeader {
        payload_len: CLOSE_CODE_LEN as u32,
        ..base
    };
    assert!(with_reason.validate().is_ok());
}

#[test]
fn from_aad_bytes_rejects_unknown_record_type() {
    let mut bytes = base_data_header().aad_bytes();
    bytes[21] = 255;
    let error = RecordHeader::from_aad_bytes(&bytes).unwrap_err();
    assert!(matches!(error, WireError::UnknownRecordType(255)));
}

#[test]
fn from_aad_bytes_rejects_unknown_codec_mode() {
    let mut bytes = base_data_header().aad_bytes();
    bytes[22] = 255;
    let error = RecordHeader::from_aad_bytes(&bytes).unwrap_err();
    assert!(matches!(error, WireError::UnknownCodecMode(255)));
}

#[test]
fn record_round_trip_preserves_fields() {
    let record = Record {
        header: base_data_header(),
        payload: vec![1, 2, 3],
        auth_tag: [9; AUTH_TAG_LEN],
    };
    let decoded = Record::from_bytes(&record.to_bytes()).unwrap();
    assert_eq!(decoded, record);
}

fn predictive_record(payload: Vec<u8>) -> Record {
    Record {
        header: RecordHeader {
            version: PROTOCOL_VERSION,
            stream_id: StreamId(1),
            epoch_id: EpochId(0),
            seq_no: SeqNo(1),
            record_type: RecordType::PredictiveConfirm,
            codec_mode: CodecMode::Plain,
            flags: RecordFlags::empty(),
            item_id: ItemId(1),
            payload_len: payload.len() as u32,
        },
        payload,
        auth_tag: [0u8; AUTH_TAG_LEN],
    }
}

#[test]
fn record_zstd_compress_decompress_round_trip() {
    let payload = b"{\"id\":1,\"step\":5,\"locality\":\"cache-hot\",\"bucket\":3,\"stable\":\"odd\",\"assembly\":{\"def_id\":1,\"body\":[1,2,3,4,5,6,7,8,9,10,11,12,13,14,15,16,17,18,19,20]},\"route_graph\":{\"node_count\":3,\"output_len\":85}}"
        .to_vec();
    let record = predictive_record(payload);

    let original_len = record.payload.len();
    let compressed = record.maybe_compress_zstd();

    assert!(compressed.header.flags.contains(PAYLOAD_ZSTD));
    assert!(compressed.payload.len() < original_len);
    assert_eq!(compressed.header.payload_len as usize, compressed.payload.len());

    let decompressed = compressed.maybe_decompress_zstd().unwrap();
    assert!(!decompressed.header.flags.contains(PAYLOAD_ZSTD));
    assert_eq!(decompressed.payload.len(), original_len);
    assert_eq!(
        decompressed.payload,
        b"{\"id\":1,\"step\":5,\"locality\":\"cache-hot\",\"bucket\":3,\"stable\":\"odd\",\"assembly\":{\"def_id\":1,\"body\":[1,2,3,4,5,6,7,8,9,10,11,12,13,14,15,16,17,18,19,20]},\"route_graph\":{\"node_count\":3,\"output_len\":85}}"
            .to_vec()
    );
}

#[test]
fn record_zstd_skips_small_payloads() {
    let record = predictive_record(b"hi".to_vec());
    let compressed = record.maybe_compress_zstd();
    assert!(!compressed.header.flags.contains(PAYLOAD_ZSTD));
}

#[test]
fn record_zstd_decompress_unchanged_record() {
    let payload =
        b"hello world, this is a test that is long enough to be compressed by zstd for sure".to_vec();
    let record = predictive_record(payload);
    let result = record.clone().maybe_decompress_zstd().unwrap();
    assert_eq!(result.payload, record.payload);
}

#[test]
fn record_zstd_rejects_corrupt_compressed_payload() {
    let mut record = predictive_record(vec![1, 2, 3, 4, 5]);
    record.header.flags.insert(PAYLOAD_ZSTD);
    let result = record.maybe_decompress_zstd();
    assert!(matches!(result, Err(WireError::InvalidPayload(_))));
}

#[test]
fn record_from_bytes_rejects_truncated_input() {
    let record = Record {
        header: base_data_header(),
        payload: vec![1, 2, 3],
        auth_tag: [9; AUTH_TAG_LEN],
    };
    let bytes = record.to_bytes();
    assert!(Record::from_bytes(&bytes[..bytes.len() - 1]).is_err());
}

#[test]
fn record_with_zstd_frame_takes_only_a_shorter_frame() {
    let payload = vec![7u8; 60];
    let record = predictive_record(payload.clone());
    let kept = record.clone().with_zstd_frame(Err(CompressError::ZstdEncode("no".to_string())));
    assert_eq!(kept, record);
    let kept = record.clone().with_zstd_frame(Ok(vec![1u8; 60]));
    assert_eq!(kept, record);
    let replaced = record.clone().with_zstd_frame(Ok(vec![1u8, 2, 3]));
    assert!(replaced.header.flags.contains(PAYLOAD_ZSTD));
    assert_eq!(replaced.header.payload_len, 3);
    assert_eq!(replaced.payload, vec![1u8, 2, 3]);
    let short = predictive_record(vec![1u8; 10]);
    assert_eq!(short.clone().with_zstd_frame(Ok(vec![1u8])), short);
}

#[test]
fn record_with_dict_frame_prefers_the_smaller_frame() {
    let record = predictive_record(vec![3u8; 100]);
    // the dictionary frame with its id (8 + 10) beats a plain frame of 40
    let r = record.clone().with_dict_frame(7, Ok(vec![9u8; 10]), Ok(vec![1u8; 40]));
    assert!(r.header.flags.contains(PAYLOAD_ZSTD_DICT));
    assert_eq!(&r.payload[..8], &7u64.to_le_bytes());
    assert_eq!(r.payload.len(), 18);
    assert_eq!(r.header.payload_len, 18);
    // a plain frame of 12 beats 8 + 10
    let r = record.clone().with_dict_frame(7, Ok(vec![9u8; 10]), Ok(vec![1u8; 12]));
    assert!(r.header.flags.contains(PAYLOAD_ZSTD));
    assert_eq!(r.payload.len(), 12);
    // a failed dictionary attempt falls back to the plain frame
    let r = record.clone().with_dict_frame(7, Err(CompressError::ZstdEncode("x".to_string())), Ok(vec![1u8; 12]));
    assert_eq!(r.payload.len(), 12);
    // nothing helps: the record stays
    let r = record.clone().with_dict_frame(7, Ok(vec![9u8; 99]), Ok(vec![1u8; 100]));
    assert_eq!(r, record);
}

#[test]
fn record_dict_compression_round_trips_through_a_provider() {
    let samples: Vec<Vec<u8>> = (0..40)
        .map(|i| format!("{{\"id\":{},\"name\":\"item-{}\",\"value\":{},\"tag\":\"shared\"}}", i, i, i * 10).into_bytes())
        .collect();
    let refs: Vec<&[u8]> = samples.iter().map(|s| s.as_slice()).collect();
    let dict = shared_protocol::compress::ZstdDictionary::train(
        shared_protocol::chpmt::DictionaryId(5),
        shared_protocol::source::SourceKind::Json,
        &refs,
        1,
    )
    .unwrap();
    let payload = br#"{"id":99,"name":"item-99","value":990,"tag":"shared","more":"item-98 item-97"}"#.to_vec();
    let record = predictive_record(payload.clone());
    let compressed = record.clone().maybe_compress_zstd_with_dict(&dict);
    let bytes = dict.dict_bytes.clone();
    let back = compressed
        .maybe_decompress_zstd_with_dict_provider(|_, id| if id == 5 { Some(bytes.clone()) } else { None })
        .unwrap();
    assert_eq!(back.payload, payload);
    assert!(!back.header.flags.contains(PAYLOAD_ZSTD_DICT));
    assert!(!back.header.flags.contains(PAYLOAD_ZSTD));
}
