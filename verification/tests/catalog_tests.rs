use shared_protocol::catalog::{
    BlockCatalogEntry, BlockCatalogVersion, BundleMember, CatalogError, CatalogPrefixCandidate,
    CatalogSyncPayload, CatalogWindowCandidate, RepairPayload, RepairRequest, SharedBlockCatalog,
    derive_catalog_block_id, MAX_BUNDLE_MEMBERS,
};
use shared_protocol::source::{ExactStateMaterial, SourceKind};

fn text_block(bytes: &[u8]) -> BlockCatalogEntry {
    BlockCatalogEntry::from_bytes(SourceKind::Text, bytes.to_vec()).unwrap()
}

#[test]
fn valid_sync_updates_catalog_view() {
    let block = text_block(b"hello");
    let payload = CatalogSyncPayload::new(BlockCatalogVersion(1), vec![block.clone()], vec![]);
    let mut catalog = SharedBlockCatalog::default();
    let summary = catalog.apply_sync(payload).unwrap();
    assert_eq!(summary.block_count, 1);
    assert_eq!(catalog.version(), BlockCatalogVersion(1));
    assert_eq!(
        catalog
            .materialize_block_range(block.block_id, 0, block.byte_len)
            .unwrap(),
        b"hello"
    );
}

#[test]
fn regressive_sync_is_rejected() {
    let mut catalog = SharedBlockCatalog::default();
    catalog
        .apply_sync(CatalogSyncPayload::new(
            BlockCatalogVersion(2),
            vec![text_block(b"hello")],
            vec![],
        ))
        .unwrap();
    let err = catalog
        .apply_sync(CatalogSyncPayload::new(
            BlockCatalogVersion(1),
            vec![text_block(b"world")],
            vec![],
        ))
        .unwrap_err();
    assert!(matches!(err, CatalogError::StaleCatalogVersion { .. }));
}

#[test]
fn bundle_materialization_is_ordered_and_exact() {
    let mut catalog = SharedBlockCatalog::default();
    let hello = catalog
        .insert_block(SourceKind::Text, b"hello ".to_vec())
        .unwrap();
    let world = catalog
        .insert_block(SourceKind::Text, b"world".to_vec())
        .unwrap();
    let bundle = catalog
        .define_bundle(vec![
            BundleMember::block(hello, 0, 6),
            BundleMember::block(world, 0, 5),
        ])
        .unwrap();
    assert_eq!(catalog.materialize_bundle(bundle).unwrap(), b"hello world");
}

#[test]
fn invalid_bundle_fails_validation() {
    let mut catalog = SharedBlockCatalog::default();
    let block = catalog
        .insert_block(SourceKind::Text, b"hello".to_vec())
        .unwrap();
    let err = catalog
        .define_bundle(vec![BundleMember::block(block, 0, 99)])
        .unwrap_err();
    assert!(matches!(err, CatalogError::InvalidBlockRange { .. }));
}

#[test]
fn repair_response_carries_exact_requested_material() {
    let mut catalog = SharedBlockCatalog::default();
    let block = catalog
        .insert_block(SourceKind::Text, b"repair me".to_vec())
        .unwrap();
    let request = RepairRequest::missing_basis(BlockCatalogVersion(0), vec![block], Vec::new());
    let payload = catalog
        .repair_response(&request, BlockCatalogVersion(4))
        .unwrap();
    let mut restored = SharedBlockCatalog::default();
    match payload {
        RepairPayload::Response { sync, .. } => {
            restored.apply_sync(sync).unwrap();
        }
        RepairPayload::Request { .. } => panic!("expected repair response"),
    }
    assert_eq!(
        restored.materialize_block_range(block, 0, 9).unwrap(),
        b"repair me"
    );
}

#[test]
fn prefix_candidates_prefer_longer_matches() {
    let mut catalog = SharedBlockCatalog::default();
    let small = catalog
        .insert_block(SourceKind::Text, b"shared ".to_vec())
        .unwrap();
    let large = catalog
        .insert_block(SourceKind::Text, b"shared prefix ".to_vec())
        .unwrap();

    let candidates = catalog.prefix_candidates(b"shared prefix tail", 4, 8);
    assert!(!candidates.is_empty());
    assert_eq!(
        candidates[0],
        CatalogPrefixCandidate::Block {
            block_id: large,
            byte_len: 14
        }
    );
    assert!(candidates.iter().any(|candidate| {
        *candidate
            == CatalogPrefixCandidate::Block {
                block_id: small,
                byte_len: 7,
            }
    }));
}

#[test]
fn exact_material_lookup_finds_block_and_bundle() {
    let mut catalog = SharedBlockCatalog::default();
    let left = catalog
        .insert_block(SourceKind::Text, b"hello ".to_vec())
        .unwrap();
    let right = catalog
        .insert_block(SourceKind::Text, b"world".to_vec())
        .unwrap();
    let bundle = catalog
        .define_bundle(vec![
            BundleMember::block(left, 0, 6),
            BundleMember::block(right, 0, 5),
        ])
        .unwrap();

    assert_eq!(
        catalog
            .exact_block_for_material(b"hello ")
            .unwrap()
            .block_id,
        left
    );
    assert_eq!(
        catalog
            .exact_bundle_for_material(b"hello world")
            .unwrap()
            .bundle_id,
        bundle
    );
}

#[test]
fn window_candidates_find_internal_match_in_block() {
    let mut catalog = SharedBlockCatalog::default();
    let block = catalog
        .insert_block(SourceKind::Text, b"123--shared-middle--456".to_vec())
        .unwrap();

    let candidates = catalog.window_candidates(b"xxshared-middleyy", 6, 8);
    assert!(!candidates.is_empty());
    assert_eq!(
        candidates[0],
        CatalogWindowCandidate::Block {
            block_id: block,
            base_start: 5,
            byte_len: 13
        }
    );
}

#[test]
fn window_candidates_find_internal_match_in_bundle() {
    let mut catalog = SharedBlockCatalog::default();
    let left = catalog
        .insert_block(SourceKind::Text, b"aaa-shared".to_vec())
        .unwrap();
    let right = catalog
        .insert_block(SourceKind::Text, b"-middle-bbb".to_vec())
        .unwrap();
    let bundle = catalog
        .define_bundle(vec![
            BundleMember::block(left, 0, 10),
            BundleMember::block(right, 0, 11),
        ])
        .unwrap();

    let candidates = catalog.window_candidates(b"zzshared-middleqq", 6, 8);
    assert!(!candidates.is_empty());
    assert!(candidates.iter().any(|candidate| {
        *candidate
            == CatalogWindowCandidate::Bundle {
                bundle_id: bundle,
                base_start: 4,
                byte_len: 13,
            }
    }));
}

// Own tests.

#[test]
fn reinserting_an_identical_block_is_accepted_and_changes_nothing() {
    let mut catalog = SharedBlockCatalog::default();
    let a = catalog.insert_block(SourceKind::Text, b"same".to_vec()).unwrap();
    let b = catalog.insert_block(SourceKind::Text, b"same".to_vec()).unwrap();
    assert_eq!(a, b);
    assert_eq!(catalog.block_count(), 1);
    assert_eq!(a, derive_catalog_block_id(SourceKind::Text, b"same"));
}

#[test]
fn block_ids_depend_on_source_kind() {
    let text = derive_catalog_block_id(SourceKind::Text, b"bytes");
    let json = derive_catalog_block_id(SourceKind::Json, b"bytes");
    assert_ne!(text, json);
    assert_ne!(text.0, 0);
}

#[test]
fn tampered_block_is_refused_by_validation() {
    let mut entry = text_block(b"original");
    entry.material = b"tampered".to_vec();
    assert_eq!(entry.validate(), Err(CatalogError::BlockHashMismatch(entry.block_id)));
    let mut short = text_block(b"original");
    short.byte_len = 3;
    assert!(matches!(short.validate(), Err(CatalogError::BlockLenMismatch { expected: 3, actual: 8, .. })));
}

#[test]
fn duplicate_sync_blocks_are_refused() {
    let block = text_block(b"dup");
    let payload = CatalogSyncPayload::new(BlockCatalogVersion(1), vec![block.clone(), block.clone()], vec![]);
    assert_eq!(payload.validate_basic(), Err(CatalogError::DuplicateBlock(block.block_id)));
}

#[test]
fn empty_missing_basis_request_is_refused() {
    let request = RepairRequest::missing_basis(BlockCatalogVersion(0), Vec::new(), Vec::new());
    assert_eq!(request.validate(), Err(CatalogError::EmptyRepairRequest));
}

#[test]
fn missing_block_in_sync_request_is_reported() {
    let catalog = SharedBlockCatalog::default();
    let id = derive_catalog_block_id(SourceKind::Text, b"absent");
    let err = catalog.sync_payload(BlockCatalogVersion(1), &[id], &[]).unwrap_err();
    assert_eq!(err, CatalogError::MissingBlock(id));
}

#[test]
fn empty_and_oversized_bundles_are_refused() {
    let mut catalog = SharedBlockCatalog::default();
    assert_eq!(catalog.define_bundle(Vec::new()), Err(CatalogError::EmptyBundle));
    let id = catalog.insert_block(SourceKind::Text, b"x".to_vec()).unwrap();
    let members = vec![BundleMember::block(id, 0, 1); MAX_BUNDLE_MEMBERS + 1];
    assert_eq!(
        catalog.define_bundle(members),
        Err(CatalogError::TooManyBundleMembers(MAX_BUNDLE_MEMBERS + 1))
    );
}

#[test]
fn exact_material_insert_uses_its_bytes() {
    let mut catalog = SharedBlockCatalog::default();
    let material = ExactStateMaterial::new(SourceKind::Json, b"{}".to_vec());
    let id = catalog.insert_exact_material(&material).unwrap();
    assert_eq!(id, derive_catalog_block_id(SourceKind::Json, b"{}"));
    assert!(catalog.contains_block(id));
    assert_eq!(catalog.block(id).unwrap().material, b"{}".to_vec());
}

#[test]
fn window_prefers_earliest_equal_length_start() {
    let mut catalog = SharedBlockCatalog::default();
    let block = catalog.insert_block(SourceKind::Text, b"abcXXabc".to_vec()).unwrap();
    let candidates = catalog.window_candidates(b"abc", 3, 4);
    assert_eq!(
        candidates,
        vec![CatalogWindowCandidate::Block { block_id: block, base_start: 0, byte_len: 3 }]
    );
}

#[test]
fn later_sync_keeps_earlier_blocks() {
    let first = text_block(b"hello");
    let second = text_block(b"world");
    let mut catalog = SharedBlockCatalog::default();
    catalog
        .apply_sync(CatalogSyncPayload::new(BlockCatalogVersion(1), vec![first.clone()], vec![]))
        .unwrap();
    catalog
        .apply_sync(CatalogSyncPayload::new(BlockCatalogVersion(2), vec![second.clone()], vec![]))
        .unwrap();
    assert_eq!(catalog.version(), BlockCatalogVersion(2));
    assert!(catalog.contains_block(first.block_id));
    assert!(catalog.contains_block(second.block_id));
    assert_eq!(
        catalog.materialize_block_range(first.block_id, 0, first.byte_len).unwrap(),
        b"hello"
    );
}
