use shared_protocol::chpmt::{ObjectKind, SparseCue};
use shared_protocol::codec::{
    choose_codec_mode, choose_codec_mode_from_lengths, choose_codec_mode_with_preference,
    decode_data_payload, decode_exact_payload, encode_best_exact_payload,
    encode_best_exact_payload_with_preference, encode_exact_payload, inspect_data_payload,
    predictor_state_for, CodecDecision, CodecError, DataPlaneCodecPreference, ResidualCodingMode,
};
use shared_protocol::protocol::{CodecMode, ItemId, PredictorEntryMeta, PredictorState};
use shared_protocol::source::{ExactStateMaterial, SourceKind};

fn block(family: SourceKind, bytes: &[u8]) -> ExactStateMaterial {
    ExactStateMaterial::copy_exact(family, bytes)
}

fn meta() -> PredictorEntryMeta {
    PredictorEntryMeta {
        item_id: ItemId(1),
        source_kind: SourceKind::Binary,
        object_kind: ObjectKind::ExactState,
        cue: SparseCue::default(),
    }
}

#[test]
fn copy_exact_round_trips() {
    let current = block(SourceKind::Json, b"{\"ok\":true}");
    let payload = encode_exact_payload(&current);
    let decoded = decode_data_payload(&payload, CodecMode::DirectExact, None).unwrap();
    assert_eq!(decoded.exact_bytes, current.exact_bytes);
    assert_eq!(decoded.source_kind, SourceKind::Json);
}

#[test]
fn tiny_payloads_stay_copy_exact() {
    let current = block(SourceKind::Json, b"{\"x\":1}");
    let encoded = encode_best_exact_payload(&current, PredictorState::Empty, None).unwrap();
    assert_eq!(encoded.mode, CodecMode::DirectExact);
}

#[test]
fn direct_exact_only_preference_disables_latent_modes() {
    let previous = block(SourceKind::Json, b"{\"count\":41,\"ok\":true}");
    let current = block(SourceKind::Json, b"{\"count\":42,\"ok\":true}");
    let encoded = encode_best_exact_payload_with_preference(
        &current,
        PredictorState::Ready(meta()),
        Some(&previous),
        DataPlaneCodecPreference::DirectExactOnly,
    )
    .unwrap();
    assert_eq!(encoded.mode, CodecMode::DirectExact);
}

#[test]
fn exact_payload_layout_and_errors() {
    let current = block(SourceKind::Text, b"abc");
    assert_eq!(encode_exact_payload(&current), vec![1, b'a', b'b', b'c']);
    assert_eq!(
        decode_exact_payload(&[]),
        Err(CodecError::TruncatedPayload { minimum: 1, actual: 0 })
    );
    assert_eq!(decode_exact_payload(&[9, 1]), Err(CodecError::UnknownSourceKind(9)));
    let empty = decode_exact_payload(&[4]).unwrap();
    assert_eq!(empty.source_kind, SourceKind::Image);
    assert!(empty.exact_bytes.is_empty());
}

#[test]
fn plain_and_predicted_decoding() {
    let plain = decode_data_payload(b"raw", CodecMode::Plain, None).unwrap();
    assert_eq!(plain.source_kind, SourceKind::Binary);
    assert_eq!(plain.exact_bytes, b"raw".to_vec());
    assert_eq!(
        decode_data_payload(b"x", CodecMode::PredictedExact, None),
        Err(CodecError::MissingPredictor)
    );
}

#[test]
fn inspection_of_direct_plain_and_packed_payloads() {
    let direct = inspect_data_payload(&[2, 1, 2, 3], CodecMode::DirectExact).unwrap();
    assert_eq!(direct.source_kind, SourceKind::Json);
    assert_eq!(direct.original_len, 3);
    assert_eq!(direct.residual_mode, ResidualCodingMode::Plain);
    let plain = inspect_data_payload(&[7, 7], CodecMode::Plain).unwrap();
    assert_eq!(plain.source_kind, SourceKind::Binary);
    assert_eq!(plain.original_len, 2);
    assert_eq!(
        inspect_data_payload(&[1, 2, 3], CodecMode::PackedExact),
        Err(CodecError::TruncatedPayload { minimum: 18, actual: 3 })
    );
    let mut header = vec![1u8, 9, 0x20, 0, 5, 0, 0, 0, 1, 0, 0, 0, 0, 0, 0, 0, 0, 0];
    assert_eq!(
        inspect_data_payload(&header, CodecMode::PackedExact),
        Err(CodecError::InvalidPackedVersion(9))
    );
    header[1] = 2;
    header[8] = 0;
    assert_eq!(
        inspect_data_payload(&header, CodecMode::PredictedExact),
        Err(CodecError::InvalidBlockCount)
    );
    header[8] = 1;
    header[10] = 2;
    assert_eq!(
        inspect_data_payload(&header, CodecMode::PackedExact),
        Err(CodecError::PayloadLenMismatch { expected: 20, actual: 18 })
    );
}

#[test]
fn preference_names_and_default() {
    assert_eq!(DataPlaneCodecPreference::Adaptive.slug(), "adaptive");
    assert_eq!(DataPlaneCodecPreference::DirectExactOnly.slug(), "direct_exact_only");
    assert_eq!(DataPlaneCodecPreference::default(), DataPlaneCodecPreference::DirectExactOnly);
    assert!(DataPlaneCodecPreference::DirectExactOnly.forces_direct_exact());
    assert!(!DataPlaneCodecPreference::Adaptive.forces_direct_exact());
}

#[test]
fn predictor_state_follows_the_item() {
    assert_eq!(predictor_state_for(ItemId(1), Some(meta())), PredictorState::Ready(meta()));
    assert_eq!(predictor_state_for(ItemId(2), Some(meta())), PredictorState::Empty);
    assert_eq!(predictor_state_for(ItemId(1), None), PredictorState::Empty);
}

#[test]
fn codec_mode_choice_from_candidate_lengths() {
    let current = block(SourceKind::Text, b"hello");
    assert_eq!(choose_codec_mode(&current, PredictorState::Empty, None), CodecDecision::DirectExact);
    assert_eq!(
        choose_codec_mode_with_preference(&current, PredictorState::Empty, None, DataPlaneCodecPreference::Adaptive),
        CodecDecision::DirectExact
    );
    let adaptive = DataPlaneCodecPreference::Adaptive;
    // Small items must save eight bytes.
    assert_eq!(choose_codec_mode_from_lengths(100, 99, &[93], &[], false, adaptive), CodecDecision::DirectExact);
    assert_eq!(choose_codec_mode_from_lengths(100, 99, &[92], &[], false, adaptive), CodecDecision::PackedExact);
    // A shorter predicted candidate wins when a prediction is used.
    assert_eq!(choose_codec_mode_from_lengths(100, 99, &[80], &[60], true, adaptive), CodecDecision::PredictedExact);
    assert_eq!(choose_codec_mode_from_lengths(100, 99, &[80], &[60], false, adaptive), CodecDecision::PackedExact);
    // An equal predicted candidate does not replace the packed one.
    assert_eq!(choose_codec_mode_from_lengths(100, 99, &[80], &[80], true, adaptive), CodecDecision::PackedExact);
    // Large items must save one percent of the copy.
    assert_eq!(choose_codec_mode_from_lengths(2001, 2000, &[1981], &[], false, adaptive), CodecDecision::DirectExact);
    assert_eq!(choose_codec_mode_from_lengths(2001, 2000, &[1980], &[], false, adaptive), CodecDecision::PackedExact);
    assert_eq!(
        choose_codec_mode_from_lengths(100, 99, &[10], &[5], true, DataPlaneCodecPreference::DirectExactOnly),
        CodecDecision::DirectExact
    );
}
