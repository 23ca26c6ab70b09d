use std::collections::HashMap;

use shared_protocol::compress::{
    decode_compressed_payload, encode_compressed_payload, BinaryDelta, ColumnarBatch,
    ColumnarBatchAccumulator, CompressionStrategy, DeltaOp, DictionaryManager,
    NestedStructuralTemplate, StructuralTemplate, TemplateRegistry, XorDelta, RETRAIN_THRESHOLD,
};
use shared_protocol::datagram::{
    DatagramReliabilityConfig, DatagramSessionError, DatagramTransportState,
};
use shared_protocol::protocol::StreamId;
use shared_protocol::source::SourceKind;

fn json_sample(i: usize, width: usize) -> String {
    let mut s = format!("{{\"id\":{},\"name\":\"item-{}\",\"tags\":[", i, i);
    let mut n = 0;
    while s.len() < width {
        s.push_str(&format!("\"t{}-{}\",", i, n));
        n += 1;
    }
    s.push_str("\"end\"]}");
    s
}

#[test]
fn dictionary_is_retrained_after_enough_new_bytes() {
    let mut manager = DictionaryManager::new();
    for i in 0..30 {
        manager.add_sample(SourceKind::Json, json_sample(i, 60).as_bytes());
    }
    let first = manager.maybe_train(SourceKind::Json).expect("first training");
    assert_eq!(manager.get_dictionary(SourceKind::Json).unwrap().dict_id.0, first);

    // Without new samples nothing is retrained.
    assert_eq!(manager.maybe_train(SourceKind::Json), None);

    let mut added = 0usize;
    let mut i = 100;
    while added < RETRAIN_THRESHOLD {
        let sample = json_sample(i, 1000);
        added += sample.len();
        manager.add_sample(SourceKind::Json, sample.as_bytes());
        i += 1;
    }
    let second = manager.maybe_train(SourceKind::Json).expect("retraining");
    assert_ne!(second, first);
    assert_eq!(manager.get_dictionary(SourceKind::Json).unwrap().dict_id.0, second);
    // The new bytes were consumed by the retraining.
    assert_eq!(manager.maybe_train(SourceKind::Json), None);
}

#[test]
fn nested_template_flattens_one_level_with_dots() {
    let json = br#"{"user":{"name":"a","age":3}}"#;
    let nested = NestedStructuralTemplate::from_json(json, 1).unwrap();
    assert_eq!(nested.template_id, 1);
    assert_eq!(nested.keys, vec![b"user.name".to_vec(), b"user.age".to_vec()]);
}

#[test]
fn nested_template_mixes_flat_and_nested_keys() {
    let json = br#"{"id":7,"meta":{"a":1},"z":"q"}"#;
    let nested = NestedStructuralTemplate::from_json(json, 9).unwrap();
    assert_eq!(
        nested.keys,
        vec![b"id".to_vec(), b"meta.a".to_vec(), b"z".to_vec()]
    );
}

#[test]
fn flushed_batch_is_the_encoding_of_the_collected_items() {
    let items: Vec<(SourceKind, Vec<u8>)> = vec![
        (SourceKind::Json, b"{\"a\":1}".to_vec()),
        (SourceKind::Text, b"hello".to_vec()),
        (SourceKind::Binary, vec![0, 1, 2, 3]),
        (SourceKind::Json, b"{\"b\":2}".to_vec()),
    ];
    let mut acc = ColumnarBatchAccumulator::new();
    for (k, p) in &items {
        acc.add(*k, p);
    }
    let batch = acc.flush().expect("four items flush");
    assert!(acc.is_empty());
    let refs: Vec<(SourceKind, &[u8])> = items.iter().map(|(k, p)| (*k, p.as_slice())).collect();
    let expected = ColumnarBatch::encode_batch(&refs);
    assert_eq!(batch, expected);
    assert_eq!(batch.row_count, 4);
    assert_eq!(batch.decode_batch().unwrap(), items);
}

#[test]
fn forced_flush_keeps_item_contents() {
    let mut acc = ColumnarBatchAccumulator::new();
    acc.add(SourceKind::Text, b"only one");
    let batch = acc.flush_forced().expect("forced flush of one item");
    assert_eq!(
        batch.decode_batch().unwrap(),
        vec![(SourceKind::Text, b"only one".to_vec())]
    );
}

#[test]
fn binary_delta_copies_are_at_least_eight_bytes() {
    let base = b"0123456789abcdefghijklmnopqrstuvwxyz".to_vec();
    let mut target = base.clone();
    target[20] = b'#';
    let delta = BinaryDelta::compute(&base, &target);
    for op in &delta.ops {
        match op {
            DeltaOp::Copy { length, .. } => assert!(*length >= 8),
            DeltaOp::Insert(v) => assert!(!v.is_empty()),
        }
    }
    assert_eq!(delta.apply(&base).unwrap(), target);
    let decoded = BinaryDelta::decode_from_bytes(&delta.encode_to_bytes()).unwrap();
    assert_eq!(decoded, delta);
}

#[test]
fn binary_delta_of_empty_target_has_no_ops() {
    let delta = BinaryDelta::compute(b"some base bytes", b"");
    assert!(delta.ops.is_empty());
    assert_eq!(delta.target_len, 0);
    assert_eq!(delta.apply(b"some base bytes").unwrap(), Vec::<u8>::new());
}

#[test]
fn xor_delta_patches_and_round_trip() {
    let base = b"abcdef".to_vec();
    let target = b"abXdeY".to_vec();
    let x = XorDelta::compute(&base, &target).unwrap();
    assert_eq!(x.patches, vec![(2u32, b'c' ^ b'X'), (5u32, b'f' ^ b'Y')]);
    assert_eq!(x.apply(&base).unwrap(), target);
    let bytes = x.encode_to_bytes();
    assert_eq!(bytes.len(), 10 + 5 * x.patches.len());
    assert_eq!(XorDelta::decode_from_bytes(&bytes).unwrap(), x);
    assert!(x.apply(b"short").is_err());
}

#[test]
fn slot_values_round_trip_including_empty_values() {
    let values = vec![b"alpha".to_vec(), Vec::new(), vec![0u8; 300]];
    let bytes = StructuralTemplate::encode_slot_values(&values);
    assert_eq!(StructuralTemplate::decode_slot_values(&bytes).unwrap(), values);
}

#[test]
fn closed_datagram_session_refuses_everything_and_stays_unchanged() {
    let mut st = DatagramTransportState::new(StreamId(5), DatagramReliabilityConfig::default());
    let close = st.encode_close(3).unwrap();
    assert!(!close.is_empty());
    let metrics_before = st.metrics().clone();
    let expected_before = st.expected_inbound_message_id();

    assert!(matches!(st.handle_datagram(&close), Err(DatagramSessionError::SessionClosed)));
    assert!(matches!(st.handle_datagram(b"garbage"), Err(DatagramSessionError::SessionClosed)));
    assert_eq!(st.encode_transport_frame(b"frame"), Err(DatagramSessionError::SessionClosed));
    assert_eq!(st.build_repair_requests(), Err(DatagramSessionError::SessionClosed));
    assert_eq!(st.encode_keepalive(), Err(DatagramSessionError::SessionClosed));
    assert_eq!(st.encode_close(4), Err(DatagramSessionError::SessionClosed));

    assert_eq!(st.metrics().clone(), metrics_before);
    assert_eq!(st.expected_inbound_message_id(), expected_before);
}

#[test]
fn data_chunks_are_reassembled_acknowledged_and_delivered_in_order() {
    let mut config = DatagramReliabilityConfig::default();
    config.target_datagram_payload_size_bytes = 4;
    let mut sender = DatagramTransportState::new(StreamId(9), config);
    let mut receiver = DatagramTransportState::new(StreamId(9), config);
    let first = sender.encode_transport_frame(b"first message").unwrap();
    let second = sender.encode_transport_frame(b"second").unwrap();
    assert!(first.len() > 1);

    // The second message arrives first: it is acknowledged but held back.
    let mut acks = Vec::new();
    for (n, d) in second.iter().enumerate() {
        let out = receiver.handle_datagram(d).unwrap();
        assert!(out.ready_frames.is_empty());
        assert_eq!(out.outbound_datagrams.len(), if n + 1 == second.len() { 1 } else { 0 });
        acks.extend(out.outbound_datagrams);
    }
    // The first message completes and both are delivered in order.
    let mut delivered = Vec::new();
    for (n, d) in first.iter().enumerate() {
        let out = receiver.handle_datagram(d).unwrap();
        assert_eq!(out.outbound_datagrams.len(), if n + 1 == first.len() { 1 } else { 0 });
        acks.extend(out.outbound_datagrams);
        delivered.extend(out.ready_frames);
    }
    assert_eq!(delivered, vec![b"first message".to_vec(), b"second".to_vec()]);
    assert_eq!(receiver.expected_inbound_message_id(), 2);

    for a in &acks {
        let out = sender.handle_datagram(a).unwrap();
        assert!(out.outbound_datagrams.is_empty());
    }
}

#[test]
fn delta_and_xor_payloads_decode_against_their_base() {
    let base = b"{\"id\":1,\"value\":100,\"name\":\"test\",\"padding\":\"0123456789\"}".to_vec();
    let target = b"{\"id\":1,\"value\":200,\"name\":\"test\",\"padding\":\"0123456789\"}".to_vec();
    let mut previous = HashMap::new();
    previous.insert(7u64, base.clone());
    let dm = DictionaryManager::new();
    let registry = TemplateRegistry::new();

    let delta = BinaryDelta::compute(&base, &target);
    let payload = encode_compressed_payload(
        CompressionStrategy::Delta { base_item_id: 7 },
        &delta.encode_to_bytes(),
    );
    assert_eq!(
        decode_compressed_payload(&payload, &dm, &registry, &previous, SourceKind::Json).unwrap(),
        target
    );

    let xor = XorDelta::compute(&base, &target).unwrap();
    let payload = encode_compressed_payload(
        CompressionStrategy::Delta { base_item_id: 7 },
        &xor.encode_to_bytes(),
    );
    // The XOR form starts with the base length, which is no binary delta version.
    assert_ne!(base.len() % 256, 1);
    assert_eq!(
        decode_compressed_payload(&payload, &dm, &registry, &previous, SourceKind::Json).unwrap(),
        target
    );

    let passthrough = encode_compressed_payload(CompressionStrategy::Passthrough, b"plain");
    assert_eq!(
        decode_compressed_payload(&passthrough, &dm, &registry, &previous, SourceKind::Text).unwrap(),
        b"plain".to_vec()
    );
}

#[test]
fn accumulated_batch_of_ten_items_decodes_back() {
    let mut acc = ColumnarBatchAccumulator::new();
    for i in 0..10u32 {
        let data = format!("{{\"id\":{},\"name\":\"item-{}\",\"value\":{}}}", i, i, i * 10);
        acc.add(SourceKind::Json, data.as_bytes());
    }
    let batch = acc.flush().unwrap();
    assert_eq!(batch.row_count, 10);
    let items = batch.decode_batch().unwrap();
    assert_eq!(items.len(), 10);
    for (i, (kind, data)) in items.iter().enumerate() {
        assert_eq!(*kind, SourceKind::Json);
        let expected = format!("{{\"id\":{},\"name\":\"item-{}\",\"value\":{}}}", i, i, i * 10);
        assert_eq!(data, expected.as_bytes());
    }
}

#[test]
fn broken_batches_are_refused_with_the_failing_column() {
    let items: Vec<(SourceKind, &[u8])> = vec![(SourceKind::Text, b"abc"), (SourceKind::Json, b"{}")];
    let mut batch = ColumnarBatch::encode_batch(&items);
    // A length column that claims more bytes than the payloads hold.
    batch.columns[1].data = vec![10, 0, 0, 0, 0];
    assert!(matches!(batch.decode_batch(), Err(shared_protocol::compress::CompressError::ColumnarPayloadTruncated)));
    // A varint that never ends.
    batch.columns[1].data = vec![3, 0, 0, 0, 0x80];
    assert!(matches!(batch.decode_batch(), Err(shared_protocol::compress::CompressError::ColumnarDecode(_))));
    // A zstd column that is no zstd frame.
    let mut batch = ColumnarBatch::encode_batch(&items);
    batch.columns[2].encoding = shared_protocol::compress::ColumnEncoding::Zstd;
    batch.columns[2].data = b"not zstd".to_vec();
    assert!(matches!(batch.decode_batch(), Err(shared_protocol::compress::CompressError::ZstdDecode(_))));
}

#[test]
fn delta_chain_rebuilds_the_last_version() {
    let v0 = b"version zero of the document, long enough to copy".to_vec();
    let v1 = b"version one! of the document, long enough to copy".to_vec();
    let v2 = b"version two! of the document, long enough to copy!!".to_vec();
    let d1 = BinaryDelta::compute(&v0, &v1);
    let d2 = BinaryDelta::compute(&v1, &v2);
    let chain = vec![
        (d1.encode_to_bytes(), false),
        (shared_protocol::compress::delta_compress_with_zstd(&d2).unwrap(), true),
    ];
    assert_eq!(shared_protocol::compress::DeltaChain::apply_chain(&v0, &chain).unwrap(), v2);
    let bad = vec![(vec![9u8; 12], false)];
    assert!(shared_protocol::compress::DeltaChain::apply_chain(&v0, &bad).is_err());
}
