use std::collections::HashMap;

use shared_protocol::chpmt::DictionaryId;
use shared_protocol::compress::{
    decode_compressed_payload, decode_slot_values_compressed, delta_compress_with_zstd,
    delta_decompress_from_zstd, encode_compressed_payload, encode_slot_values_compressed,
    select_strategy, zstd_compress_raw, zstd_decompress_raw, BinaryDelta, ColumnarBatch,
    ColumnarBatchAccumulator, CompressionStrategy, DeltaChain, DictionaryManager,
    NestedStructuralTemplate, StructuralTemplate, TemplateRegistry, XorDelta,
};
use shared_protocol::source::SourceKind;
use shared_protocol::tuning::{
    BatchAeadHelper, CompressionBudget, CompressorCache, StrategyPerformanceTracker,
};

fn keys(list: &[&str]) -> Vec<Vec<u8>> {
    list.iter().map(|k| k.as_bytes().to_vec()).collect()
}

#[test]
fn zstd_raw_round_trip() {
    let data = b"hello world, this is a test of zstd compression in pulzz";
    let compressed = zstd_compress_raw(data).unwrap();
    let decompressed = zstd_decompress_raw(&compressed, data.len() * 2).unwrap();
    assert_eq!(decompressed, data);
}

#[test]
fn binary_delta_round_trip() {
    let base = b"hello world, this is version 1 of the data";
    let target = b"hello world, this is version 2 of the data";
    let delta = BinaryDelta::compute(base, target);
    let reconstructed = delta.apply(base).unwrap();
    assert_eq!(reconstructed, target);
}

#[test]
fn binary_delta_encoding_round_trip() {
    let base = b"the quick brown fox jumps over the lazy dog";
    let target = b"the quick red fox jumps over the lazy cat";
    let delta = BinaryDelta::compute(base, target);
    let encoded = delta.encode_to_bytes();
    let decoded = BinaryDelta::decode_from_bytes(&encoded).unwrap();
    assert_eq!(decoded.ops, delta.ops);
    let reconstructed = decoded.apply(base).unwrap();
    assert_eq!(reconstructed, target);
}

#[test]
fn binary_delta_compact_vs_full() {
    let base = b"{\"item\":1,\"step\":5,\"locality\":\"cache-hot\",\"bucket\":3,\"stable\":\"odd\"}";
    let target = b"{\"item\":1,\"step\":6,\"locality\":\"cache-hot\",\"bucket\":4,\"stable\":\"even\"}";
    let delta = BinaryDelta::compute(base, target);
    assert!(delta.is_compact_vs(target.len()));
}

#[test]
fn template_json_round_trip() {
    let json = br#"{"id":42,"name":"test","value":100}"#;
    let template = StructuralTemplate::from_json(json, 1).expect("JSON template extraction");
    assert_eq!(template.keys, keys(&["id", "name", "value"]));

    let values = template
        .extract_values(json)
        .expect("template should extract from original");
    let reconstructed = template.reconstruct(&values).unwrap();
    assert_eq!(reconstructed, json.to_vec());

    let similar = br#"{"id":99,"name":"foo","value":200}"#;
    let values2 = template
        .extract_values(similar)
        .expect("template should extract from similar");
    let reconstructed2 = template.reconstruct(&values2).unwrap();
    assert_eq!(reconstructed2, similar.to_vec());
}

#[test]
fn template_slot_value_encoding() {
    let values = vec![b"hello".to_vec(), b"world".to_vec(), b"42".to_vec()];
    let encoded = StructuralTemplate::encode_slot_values(&values);
    let decoded = StructuralTemplate::decode_slot_values(&encoded).unwrap();
    assert_eq!(decoded, values);
}

#[test]
fn columnar_batch_round_trip() {
    let items: Vec<(SourceKind, &[u8])> = vec![
        (SourceKind::Json, br#"{"id":1,"value":100}"#.as_slice()),
        (SourceKind::Json, br#"{"id":2,"value":200}"#.as_slice()),
        (SourceKind::Json, br#"{"id":3,"value":300}"#.as_slice()),
    ];
    let batch = ColumnarBatch::encode_batch(&items);
    let decoded = batch.decode_batch().unwrap();
    assert_eq!(decoded.len(), 3);
    for (i, (kind, data)) in decoded.iter().enumerate() {
        assert_eq!(*kind, SourceKind::Json);
        assert_eq!(data, &items[i].1.to_vec());
    }
}

#[test]
fn strategy_selection_small_data() {
    let strategy = select_strategy(SourceKind::Json, b"hi", false, false, None, None, None);
    assert_eq!(strategy, CompressionStrategy::Passthrough);
}

#[test]
fn strategy_selection_delta_for_updates() {
    let data = b"{\"id\":1,\"value\":100,\"name\":\"test item with longer content for delta\"}";
    assert!(data.len() >= 64, "test data must be >= 64 bytes, got {}", data.len());
    let strategy = select_strategy(SourceKind::Json, data, true, true, None, None, Some(42));
    assert!(matches!(strategy, CompressionStrategy::Delta { base_item_id: 42 }));
}

#[test]
fn strategy_selection_template_for_json() {
    let data = b"{\"id\":1,\"value\":100, \"name\":\"test with enough data for template\"}";
    assert!(data.len() >= 64, "test data must be >= 64 bytes, got {}", data.len());
    let strategy = select_strategy(SourceKind::Json, data, false, false, None, Some(1), None);
    assert!(matches!(strategy, CompressionStrategy::Template { .. }));
}

#[test]
fn strategy_selection_zstd_dict() {
    let strategy = select_strategy(
        SourceKind::Json,
        b"{\"id\":1,\"value\":100, \"name\":\"test\", \"extra\":true, \"data\":\"longer string here\"}",
        false,
        false,
        Some(DictionaryId(1)),
        None,
        None,
    );
    match strategy {
        CompressionStrategy::ZstdDict { dict_id } => assert_eq!(dict_id, 1),
        other => panic!("expected ZstdDict, got {:?}", other),
    }
}

#[test]
fn dictionary_manager_workflow() {
    let mut manager = DictionaryManager::new();
    for i in 0..30 {
        let data = format!("{{\"id\":{},\"name\":\"item-{}\",\"value\":{}}}", i, i, i * 10);
        manager.add_sample(SourceKind::Json, data.as_bytes());
    }
    let dict_id = manager.maybe_train(SourceKind::Json);
    assert!(dict_id.is_some());

    let test_data = br#"{"id":99,"name":"item-99"}"#;
    let result = manager.compress_with_dict(SourceKind::Json, test_data);
    assert!(result.is_some());

    let compressed = result.unwrap().unwrap();
    let decompressed = manager
        .decompress_with_dict(SourceKind::Json, dict_id.unwrap(), &compressed)
        .unwrap();
    assert_eq!(decompressed, test_data);
}

#[test]
fn template_registry_workflow() {
    let mut registry = TemplateRegistry::new();
    let json1 = br#"{"id":1,"name":"test","value":100}"#;
    let template_id = registry.try_register(SourceKind::Json, json1);
    assert!(template_id.is_some());

    let json2 = br#"{"id":2,"name":"other","value":200}"#;
    let match_result = registry.find_match(SourceKind::Json, json2);
    assert!(match_result.is_some());

    let (id, values) = match_result.unwrap();
    assert_eq!(id, template_id.unwrap());

    let template = registry.get_template(id).unwrap();
    let reconstructed = template.reconstruct(&values).unwrap();
    assert_eq!(reconstructed, json2.to_vec());
}

#[test]
fn p1_delta_compress_with_zstd_round_trip() {
    let base = b"{\"item\":1,\"step\":5,\"locality\":\"cache-hot\",\"bucket\":3,\"stable\":\"odd\",\"extra\":\"padding for larger delta\"}";
    let target = b"{\"item\":1,\"step\":6,\"locality\":\"cache-hot\",\"bucket\":4,\"stable\":\"even\",\"extra\":\"padding for larger delta\"}";
    let delta = BinaryDelta::compute(base, target);

    let compressed = delta_compress_with_zstd(&delta).unwrap();
    let restored = delta_decompress_from_zstd(&compressed).unwrap();
    assert_eq!(restored.ops, delta.ops);
    let reconstructed = restored.apply(base).unwrap();
    assert_eq!(reconstructed, target);

    let big_base = (0..1000)
        .map(|i| format!("line {} of base data\n", i))
        .collect::<String>();
    let big_target = (0..1000)
        .map(|i| format!("line {} of target data\n", i))
        .collect::<String>();
    let big_delta = BinaryDelta::compute(big_base.as_bytes(), big_target.as_bytes());
    let big_raw = big_delta.encode_to_bytes();
    let big_compressed = delta_compress_with_zstd(&big_delta).unwrap();
    assert!(
        big_compressed.len() < big_raw.len(),
        "Zstd-compressed large delta ({}) should be smaller than raw ({})",
        big_compressed.len(),
        big_raw.len(),
    );
}

#[test]
fn p1_xor_delta_round_trip() {
    let base = b"{\"id\":1,\"value\":100,\"name\":\"test\"}";
    let target = b"{\"id\":1,\"value\":200,\"name\":\"test\"}";
    let xor_delta = XorDelta::compute(base, target).unwrap();
    let reconstructed = xor_delta.apply(base).unwrap();
    assert_eq!(reconstructed, target);
}

#[test]
fn p1_xor_delta_encoding_round_trip() {
    let base = b"{\"id\":1,\"value\":100,\"name\":\"test\"}";
    let target = b"{\"id\":1,\"value\":200,\"name\":\"test\"}";
    let xor_delta = XorDelta::compute(base, target).unwrap();
    let encoded = xor_delta.encode_to_bytes();
    let decoded = XorDelta::decode_from_bytes(&encoded).unwrap();
    assert_eq!(decoded, xor_delta);
    let reconstructed = decoded.apply(base).unwrap();
    assert_eq!(reconstructed, target);
}

#[test]
fn p1_xor_delta_compact_for_small_changes() {
    let base = b"{\"id\":1,\"value\":100,\"name\":\"test\",\"extra\":\"data\",\"flag\":true}";
    let target = b"{\"id\":1,\"value\":200,\"name\":\"test\",\"extra\":\"data\",\"flag\":true}";
    let xor_delta = XorDelta::compute(base, target).unwrap();
    assert!(
        xor_delta.is_compact_vs(target.len()),
        "XOR delta ({}) should be smaller than target ({})",
        xor_delta.encode_to_bytes().len(),
        target.len(),
    );
}

#[test]
fn p1_xor_delta_rejects_different_lengths() {
    let base = b"hello";
    let target = b"hello world";
    let result = XorDelta::compute(base, target);
    assert!(result.is_err());
}

#[test]
fn p1_delta_chain_round_trip() {
    let v0 = b"version zero of the data payload";
    let v1 = b"version one of the data payload";
    let v2 = b"version two of the data payload";

    let delta0_1 = BinaryDelta::compute(v0, v1);
    let delta1_2 = BinaryDelta::compute(v1, v2);

    let compressed0_1 = delta_compress_with_zstd(&delta0_1).unwrap();
    let compressed1_2 = delta_compress_with_zstd(&delta1_2).unwrap();

    let result =
        DeltaChain::apply_chain(v0, &[(compressed0_1, true), (compressed1_2, true)]).unwrap();
    assert_eq!(result, v2);
}

#[test]
fn p2_compressed_slot_values_round_trip() {
    let values: Vec<Vec<u8>> = (0..20)
        .map(|i| format!("value-{}-with-some-padding-data-to-make-it-longer", i).into_bytes())
        .collect();
    let compressed = encode_slot_values_compressed(&values);
    let decompressed = decode_slot_values_compressed(&compressed).unwrap();
    assert_eq!(decompressed, values);
}

#[test]
fn p2_compressed_slot_values_raw_fallback_for_small_data() {
    let values = vec![b"hi".to_vec(), b"yo".to_vec()];
    let encoded = encode_slot_values_compressed(&values);
    assert_eq!(encoded[0], 0x00, "small data should use raw encoding");
    let decoded = decode_slot_values_compressed(&encoded).unwrap();
    assert_eq!(decoded, values);
}

#[test]
fn p2_nested_template_from_json() {
    let json = br#"{"id":1,"name":"test","value":100}"#;
    let nested = NestedStructuralTemplate::from_json(json, 1).unwrap();
    assert_eq!(nested.keys, keys(&["id", "name", "value"]));
    let structural = nested.to_structural_template(SourceKind::Json);
    assert_eq!(structural.keys, keys(&["id", "name", "value"]));
}

#[test]
fn p3_columnar_batch_accumulator_basic() {
    let mut acc = ColumnarBatchAccumulator::new();
    assert!(acc.is_empty());
    assert_eq!(acc.len(), 0);

    for i in 0..3 {
        let data = format!("{{\"id\":{},\"value\":{}}}", i, i * 10);
        let should_flush = acc.add(SourceKind::Json, data.as_bytes());
        assert!(!should_flush, "should not flush with only {} items", i + 1);
    }
    assert_eq!(acc.len(), 3);
    assert!(!acc.has_enough_for_columnar());

    for i in 3..10 {
        let data = format!("{{\"id\":{},\"value\":{}}}", i, i * 10);
        acc.add(SourceKind::Json, data.as_bytes());
    }
    assert!(acc.has_enough_for_columnar());

    let batch = acc.flush().unwrap();
    assert_eq!(batch.row_count, 10);
    assert!(acc.is_empty());
}

#[test]
fn p3_columnar_batch_accumulator_flush_too_few() {
    let mut acc = ColumnarBatchAccumulator::new();
    acc.add(SourceKind::Json, b"test1");
    acc.add(SourceKind::Json, b"test2");
    let batch = acc.flush();
    assert!(batch.is_none());
    assert!(acc.is_empty());
}

#[test]
fn p3_columnar_batch_accumulator_forced_flush() {
    let mut acc = ColumnarBatchAccumulator::new();
    acc.add(SourceKind::Json, b"test1");
    acc.add(SourceKind::Json, b"test2");
    let batch = acc.flush_forced().unwrap();
    assert_eq!(batch.row_count, 2);
}

#[test]
fn p3_columnar_batch_accumulator_drain() {
    let mut acc = ColumnarBatchAccumulator::new();
    acc.add(SourceKind::Json, b"test1");
    acc.add(SourceKind::Json, b"test2");
    let items = acc.drain();
    assert_eq!(items.len(), 2);
    assert!(acc.is_empty());
}

#[test]
fn p3_columnar_batch_accumulator_with_limits() {
    let mut acc = ColumnarBatchAccumulator::with_limits(4, 1024);
    for i in 0..4 {
        let should_flush = acc.add(SourceKind::Json, format!("data{}", i).as_bytes());
        if i < 3 {
            assert!(!should_flush);
        } else {
            assert!(should_flush, "should flush at max_items limit");
        }
    }
}

#[test]
fn p4_strategy_performance_tracker_with_feedback() {
    let mut tracker = StrategyPerformanceTracker::new();
    for _ in 0..5 {
        tracker.record(&CompressionStrategy::Columnar, 1000, 300);
    }
    let big_data: Vec<u8> = (0..200).map(|i| (i % 256) as u8).collect();
    let strategy = tracker.select_strategy_with_feedback(
        SourceKind::Json,
        &big_data,
        false,
        false,
        None,
        None,
        None,
        10,
    );
    assert!(
        matches!(strategy, CompressionStrategy::Columnar),
        "should select Columnar for batch with good history, got {:?}",
        strategy,
    );
}

#[test]
fn p5_compression_budget_within_budget() {
    let mut budget = CompressionBudget::new(10_000);
    budget.record(1000, 5_000_000);
    assert!(budget.within_budget());
    budget.record(100, 5_000_000_000);
    assert!(!budget.within_budget());
    assert_eq!(budget.budget_exceeded_count(), 1);
}

#[test]
fn p5_compression_budget_reset() {
    let mut budget = CompressionBudget::new(10_000);
    budget.record(1000, 5_000_000);
    budget.reset();
    assert!(budget.within_budget());
    assert_eq!(budget.budget_exceeded_count(), 0);
}

#[test]
fn p5_batch_aead_concatenate_and_split() {
    let p1 = b"payload one".to_vec();
    let p2 = b"payload two is a bit longer".to_vec();
    let p3 = b"three".to_vec();

    let concatenated =
        BatchAeadHelper::concatenate_payloads(&[p1.as_slice(), p2.as_slice(), p3.as_slice()]);

    let split = BatchAeadHelper::split_payloads(&concatenated).unwrap();
    assert_eq!(split.len(), 3);
    assert_eq!(split[0], p1);
    assert_eq!(split[1], p2);
    assert_eq!(split[2], p3);
}

#[test]
fn p5_batch_aead_estimate_savings() {
    let savings = BatchAeadHelper::estimate_savings(10, 32);
    assert_eq!(savings, 288);
    assert_eq!(BatchAeadHelper::estimate_savings(1, 32), 0);
}

#[test]
fn p1_p5_full_pipeline_json_workflow() {
    let mut dict_manager = DictionaryManager::new();
    let mut template_registry = TemplateRegistry::new();
    let mut perf_tracker = StrategyPerformanceTracker::new();
    let mut compressor_cache = CompressorCache::new();
    let mut previous_versions: HashMap<u64, Vec<u8>> = HashMap::new();

    for i in 0..30u64 {
        let data = format!("{{\"id\":{},\"name\":\"item-{}\",\"value\":{}}}", i, i, i * 10);
        dict_manager.add_sample(SourceKind::Json, data.as_bytes());
        template_registry.try_register(SourceKind::Json, data.as_bytes());
        previous_versions.insert(i, data.into_bytes());
    }
    dict_manager.maybe_train(SourceKind::Json);

    let new_data = br#"{"id":99,"name":"item-99","value":990}"#;
    let source_kind = SourceKind::Json;

    let available_dict = dict_manager.get_dictionary(source_kind).map(|d| d.dict_id);
    let matching_template = template_registry
        .find_match(source_kind, new_data)
        .map(|(id, _)| id);

    let strategy = perf_tracker.select_strategy_with_feedback(
        source_kind,
        new_data,
        false,
        false,
        available_dict,
        matching_template,
        None,
        1,
    );

    let (actual_strategy, compressed) = match strategy {
        CompressionStrategy::ZstdDict { .. } => {
            compressor_cache.record_compress(available_dict.map(|d| d.0));
            match dict_manager.compress_with_dict(source_kind, new_data) {
                Some(Ok(c)) => (strategy, c),
                _ => (CompressionStrategy::Passthrough, new_data.to_vec()),
            }
        }
        CompressionStrategy::Template { template_id } => {
            if let Some(template) = template_registry.get_template(template_id) {
                if let Some(values) = template.extract_values(new_data) {
                    let encoded = encode_slot_values_compressed(&values);
                    if encoded.len() < new_data.len() {
                        (strategy, encoded)
                    } else {
                        match zstd_compress_raw(new_data) {
                            Ok(c) if c.len() < new_data.len() => {
                                (CompressionStrategy::ZstdRaw, c)
                            }
                            _ => (CompressionStrategy::Passthrough, new_data.to_vec()),
                        }
                    }
                } else {
                    (CompressionStrategy::Passthrough, new_data.to_vec())
                }
            } else {
                (CompressionStrategy::Passthrough, new_data.to_vec())
            }
        }
        CompressionStrategy::ZstdRaw => match zstd_compress_raw(new_data) {
            Ok(c) if c.len() < new_data.len() => (strategy, c),
            _ => (CompressionStrategy::Passthrough, new_data.to_vec()),
        },
        _ => (CompressionStrategy::Passthrough, new_data.to_vec()),
    };

    perf_tracker.record(&actual_strategy, new_data.len(), compressed.len());

    let payload = encode_compressed_payload(actual_strategy, &compressed);
    let decompressed = decode_compressed_payload(
        &payload,
        &dict_manager,
        &template_registry,
        &previous_versions,
        source_kind,
    )
    .unwrap();

    assert_eq!(decompressed, new_data, "P1-P5 full pipeline round-trip must be exact");

    if !matches!(actual_strategy, CompressionStrategy::Passthrough) {
        assert!(
            compressed.len() < new_data.len(),
            "compressed ({}) should be smaller than original ({}) using {:?}",
            compressed.len(),
            new_data.len(),
            actual_strategy,
        );
    }
}

#[test]
fn p1_p5_delta_update_workflow() {
    let mut previous_versions: HashMap<u64, Vec<u8>> = HashMap::new();
    let mut perf_tracker = StrategyPerformanceTracker::new();

    let item_id = 42u64;
    let v1 = b"{\"id\":42,\"step\":5,\"locality\":\"cache-hot\",\"bucket\":3,\"stable\":\"odd\"}";
    let v2 = b"{\"id\":42,\"step\":6,\"locality\":\"cache-hot\",\"bucket\":4,\"stable\":\"even\"}";

    previous_versions.insert(item_id, v1.to_vec());
    let is_update = previous_versions.contains_key(&item_id);
    assert!(is_update);

    let delta = BinaryDelta::compute(v1, v2);
    let delta_bytes = delta.encode_to_bytes();
    let compressed_delta = delta_compress_with_zstd(&delta).unwrap();

    assert!(
        delta.is_compact_vs(v2.len()),
        "delta ({}) should be smaller than target ({})",
        delta_bytes.len(),
        v2.len(),
    );

    let restored_delta = delta_decompress_from_zstd(&compressed_delta).unwrap();
    let reconstructed_from_compressed = restored_delta.apply(v1).unwrap();
    assert_eq!(reconstructed_from_compressed, v2);

    perf_tracker.record(
        &CompressionStrategy::Delta {
            base_item_id: item_id,
        },
        v2.len(),
        compressed_delta.len(),
    );

    let restored_delta = delta_decompress_from_zstd(&compressed_delta).unwrap();
    let reconstructed = restored_delta.apply(v1).unwrap();
    assert_eq!(reconstructed, v2);

    if v1.len() == v2.len() {
        let xor_delta = XorDelta::compute(v1, v2).unwrap();
        let xor_reconstructed = xor_delta.apply(v1).unwrap();
        assert_eq!(xor_reconstructed, v2);
        assert!(xor_delta.is_compact_vs(v2.len()));
    }
}

#[test]
fn p4_p5_adaptive_strategy_with_budget() {
    let mut perf_tracker = StrategyPerformanceTracker::new();
    let mut budget = CompressionBudget::new(10_000);

    perf_tracker.record(&CompressionStrategy::ZstdDict { dict_id: 1 }, 1000, 300);
    perf_tracker.record(&CompressionStrategy::ZstdRaw, 1000, 400);
    perf_tracker.record(&CompressionStrategy::Delta { base_item_id: 1 }, 1000, 50);
    budget.record(3000, 10_000_000);

    assert!(budget.within_budget());

    let strategy = perf_tracker.select_strategy_with_feedback(
        SourceKind::Json,
        b"{\"id\":1,\"value\":100,\"name\":\"test with enough data for compression\"}",
        false,
        false,
        Some(DictionaryId(1)),
        None,
        None,
        1,
    );

    match strategy {
        CompressionStrategy::ZstdDict { dict_id } => assert_eq!(dict_id, 1),
        other => panic!("expected ZstdDict, got {:?}", other),
    }

    for _ in 0..100 {
        budget.record(100, 50_000_000);
    }
    assert!(!budget.within_budget());
    assert!(budget.budget_exceeded_count() > 0);
}

#[test]
fn zstd_dict_round_trip() {
    // Train a dictionary from similar JSON samples.
    let samples: Vec<Vec<u8>> = (0..20)
        .map(|i| format!("{{\"id\":{},\"name\":\"item-{}\",\"value\":{}}}", i, i, i * 10).into_bytes())
        .collect();
    let sample_refs: Vec<&[u8]> = samples.iter().map(|s| s.as_slice()).collect();
    let dict = shared_protocol::compress::ZstdDictionary::train(
        DictionaryId(1),
        SourceKind::Json,
        &sample_refs,
        1,
    )
    .expect("dictionary training should succeed with enough samples");

    // Compress a new item using the dictionary.
    let new_item = br#"{"id":99,"name":"item-99","value":990}"#;
    let compressed = dict.compress(new_item).unwrap();
    let decompressed = dict.decompress(&compressed).unwrap();
    assert_eq!(decompressed, new_item);
}

fn ratio(parts: Option<(usize, usize)>) -> Option<f64> {
    parts.map(|(compressed, original)| compressed as f64 / original as f64)
}

#[test]
fn p4_strategy_performance_tracker_record_and_query() {
    let mut tracker = StrategyPerformanceTracker::new();

    // Record some results.
    tracker.record(&CompressionStrategy::ZstdRaw, 1000, 400);
    tracker.record(&CompressionStrategy::ZstdRaw, 2000, 800);
    tracker.record(&CompressionStrategy::Delta { base_item_id: 1 }, 1000, 100);

    // Query average ratios.
    let raw_ratio = ratio(tracker.ratio_parts(&CompressionStrategy::ZstdRaw)).unwrap();
    assert!((raw_ratio - 0.4).abs() < 0.01, "ZstdRaw ratio should be ~0.4, got {}", raw_ratio);

    let delta_ratio = ratio(tracker.ratio_parts(&CompressionStrategy::Delta { base_item_id: 0 })).unwrap();
    assert!((delta_ratio - 0.1).abs() < 0.01, "Delta ratio should be ~0.1, got {}", delta_ratio);

    // Passthrough has no data.
    assert!(ratio(tracker.ratio_parts(&CompressionStrategy::Passthrough)).is_none());
}

fn hit_rate(cache: &CompressorCache) -> f64 {
    let (hits, misses) = cache.hit_totals();
    if hits + misses == 0 {
        0.0
    } else {
        hits as f64 / (hits + misses) as f64
    }
}

#[test]
fn p5_compressor_cache_hit_tracking() {
    let mut cache = CompressorCache::new();

    // First use of dict 1 — miss.
    let hit1 = cache.record_compress(Some(1));
    assert!(!hit1);

    // Same dict again — hit.
    let hit2 = cache.record_compress(Some(1));
    assert!(hit2);

    // Different dict — miss.
    let hit3 = cache.record_compress(Some(2));
    assert!(!hit3);

    // Same dict again — hit.
    let hit4 = cache.record_compress(Some(2));
    assert!(hit4);

    // Hit rate should be 2/4 = 0.5.
    assert!((hit_rate(&cache) - 0.5).abs() < 0.01);
    assert_eq!(cache.context_saves(), 2);
}

#[test]
fn p5_compressor_cache_decompress_tracking() {
    let mut cache = CompressorCache::new();
    cache.record_decompress(Some(1)); // miss
    cache.record_decompress(Some(1)); // hit
    cache.record_decompress(Some(1)); // hit
    assert!((hit_rate(&cache) - (2.0 / 3.0)).abs() < 0.01);
}
