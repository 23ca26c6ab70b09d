//! The data-plane codec's direct-exact path: the one-byte-tagged exact payload,
//! payload inspection, the predictor state for an item, and the rule that
//! picks a codec mode from the lengths of the candidate encodings.

use vstd::prelude::*;
use crate::protocol::{CodecMode, ItemId, PredictorEntryMeta, PredictorState};
use crate::source::{ExactStateMaterial, SourceKind};

verus! {

/// Length of the direct-exact header: the source-kind tag.
pub const DIRECT_EXACT_HEADER_LEN: usize = 1;

/// Version byte of a packed payload header.
pub const PACKED_PAYLOAD_VERSION: u8 = 2;

/// Length of a packed payload header: tag, version, pack id, original
/// length, block count, code length, residual length.
pub const PACKED_PAYLOAD_HEADER_LEN: usize = 18;

/// Bytes a packed encoding of a small item must save to be chosen.
pub const SMALL_PACKED_WIN_BYTES: usize = 8;

/// Which codec modes the data plane may use.
#[derive(Debug, Clone, Copy, PartialEq, Eq, Structural)]
pub enum DataPlaneCodecPreference {
    Adaptive,
    DirectExactOnly,
}

impl Default for DataPlaneCodecPreference {
    fn default() -> (p: Self)
        ensures
            p == DataPlaneCodecPreference::DirectExactOnly,
    {
        DataPlaneCodecPreference::DirectExactOnly
    }
}

impl DataPlaneCodecPreference {
    pub open spec fn slug_spec(self) -> Seq<char> {
        match self {
            DataPlaneCodecPreference::Adaptive => "adaptive"@,
            DataPlaneCodecPreference::DirectExactOnly => "direct_exact_only"@,
        }
    }

    /// The preference's name in configuration.
    pub fn slug(self) -> (s: &'static str)
        ensures
            s@ == self.slug_spec(),
    {
        match self {
            DataPlaneCodecPreference::Adaptive => "adaptive",
            DataPlaneCodecPreference::DirectExactOnly => "direct_exact_only",
        }
    }

    /// Whether only the direct-exact mode may be used.
    pub fn forces_direct_exact(self) -> (b: bool)
        ensures
            b == (self == DataPlaneCodecPreference::DirectExactOnly),
    {
        match self {
            DataPlaneCodecPreference::Adaptive => false,
            DataPlaneCodecPreference::DirectExactOnly => true,
        }
    }
}

/// The codec mode chosen for an item.
#[derive(Debug, Clone, Copy, PartialEq, Eq, Structural)]
pub enum CodecDecision {
    DirectExact,
    PackedExact,
    PredictedExact,
}

/// How the residual of a packed payload is coded (`Plain`: no residual layer).
#[derive(Debug, Clone, Copy, PartialEq, Eq, Structural)]
pub enum ResidualCodingMode {
    Plain,
    AllZero,
    SmallSignedRans,
    SparsePositions,
    LiteralRaw,
}

/// The residual tag bytes of a packed family.
#[derive(Debug, Clone, Copy, PartialEq, Eq, Structural)]
pub struct ResidualTags {
    pub all_zero_tag: u8,
    pub small_signed_rans_tag: u8,
    pub sparse_positions_tag: u8,
    pub literal_raw_tag: u8,
}

/// What a payload says about itself without being decoded.
#[derive(Debug, Clone, Copy, PartialEq, Eq, Structural)]
pub struct PayloadInspection {
    pub source_kind: SourceKind,
    pub original_len: usize,
    pub residual_mode: ResidualCodingMode,
}

/// The header fields of a packed payload.
#[derive(Debug, Clone, Copy, PartialEq, Eq, Structural)]
pub struct PackedHeader {
    pub family: SourceKind,
    pub pack_id: u16,
    pub original_len: u32,
    pub block_count: u16,
    pub code_len: u32,
    pub residual_len: u32,
}

#[derive(Debug, Clone, PartialEq, Eq)]
pub enum CodecError {
    TruncatedPayload { minimum: usize, actual: usize },
    PayloadLenMismatch { expected: usize, actual: usize },
    UnknownSourceKind(u8),
    InvalidPackedVersion(u8),
    InvalidBlockCount,
    InvalidResidualTag(u8),
    MissingPredictor,
    /// The packed family assets (residual tag tables and latent models) are
    /// not part of this library.
    AssetLoad,
}

/// The direct-exact encoding: the kind's tag, then the exact bytes.
pub open spec fn exact_payload_bytes(m: ExactStateMaterial) -> Seq<u8> {
    seq![m.source_kind.tag_spec()] + m.exact_bytes@
}

/// What a direct-exact payload decodes to, by its bytes.
pub open spec fn parse_exact_payload(p: Seq<u8>) -> Result<(SourceKind, Seq<u8>), CodecError> {
    if p.len() < 1 {
        Err(CodecError::TruncatedPayload { minimum: 1, actual: p.len() as usize })
    } else {
        match SourceKind::from_tag_spec(p[0]) {
            Some(k) => Ok((k, p.subrange(1, p.len() as int))),
            None => Err(CodecError::UnknownSourceKind(p[0])),
        }
    }
}

/// Encodes a block as a direct-exact payload.
pub fn encode_exact_payload(block: &ExactStateMaterial) -> (out: Vec<u8>)
    requires
        block.exact_bytes@.len() < usize::MAX,
    ensures
        out@ == exact_payload_bytes(*block),
{
    let mut payload: Vec<u8> = Vec::new();
    payload.push(block.source_kind.tag());
    let mut i: usize = 0;
    while i < block.exact_bytes.len()
        invariant
            i <= block.exact_bytes@.len(),
            payload@ == seq![block.source_kind.tag_spec()] + block.exact_bytes@.subrange(0, i as int),
        decreases block.exact_bytes@.len() - i,
    {
        payload.push(block.exact_bytes[i]);
        i = i + 1;
        assert(block.exact_bytes@.subrange(0, i as int) =~= block.exact_bytes@.subrange(0, i - 1).push(block.exact_bytes@[i - 1]));
    }
    assert(block.exact_bytes@.subrange(0, i as int) =~= block.exact_bytes@);
    payload
}

/// Decodes a direct-exact payload: a known tag, then the exact bytes.
pub fn decode_exact_payload(payload: &[u8]) -> (r: Result<ExactStateMaterial, CodecError>)
    ensures
        match parse_exact_payload(payload@) {
            Ok((k, bytes)) => r is Ok && r->Ok_0.source_kind == k && r->Ok_0.exact_bytes@ == bytes,
            Err(e) => r == Err::<ExactStateMaterial, CodecError>(e),
        },
{
    if payload.len() < DIRECT_EXACT_HEADER_LEN {
        return Err(CodecError::TruncatedPayload { minimum: DIRECT_EXACT_HEADER_LEN, actual: payload.len() });
    }
    let family = match SourceKind::from_tag(payload[0]) {
        Ok(k) => k,
        Err(_) => return Err(CodecError::UnknownSourceKind(payload[0])),
    };
    let bytes = crate::wire::copy_range(payload, 1, payload.len());
    Ok(ExactStateMaterial::new(family, bytes))
}

/// A direct-exact payload decodes to the block it was made from.
pub proof fn lemma_exact_payload_round_trip(m: ExactStateMaterial)
    ensures
        parse_exact_payload(exact_payload_bytes(m)) == Ok::<(SourceKind, Seq<u8>), CodecError>(
            (m.source_kind, m.exact_bytes@),
        ),
{
    let p = exact_payload_bytes(m);
    assert(p.subrange(1, p.len() as int) =~= m.exact_bytes@);
}

/// The residual coding mode that a residual tag names in a family's table.
pub open spec fn residual_mode_spec(tag: u8, spec: ResidualTags) -> Result<ResidualCodingMode, CodecError> {
    if tag == spec.all_zero_tag {
        Ok(ResidualCodingMode::AllZero)
    } else if tag == spec.small_signed_rans_tag {
        Ok(ResidualCodingMode::SmallSignedRans)
    } else if tag == spec.sparse_positions_tag {
        Ok(ResidualCodingMode::SparsePositions)
    } else if tag == spec.literal_raw_tag {
        Ok(ResidualCodingMode::LiteralRaw)
    } else {
        Err(CodecError::InvalidResidualTag(tag))
    }
}

/// Classifies a residual tag by a family's table, the first match winning.
pub fn classify_residual_payload_tag(tag: u8, spec: &ResidualTags) -> (r: Result<ResidualCodingMode, CodecError>)
    ensures
        r == residual_mode_spec(tag, *spec),
{
    if tag == spec.all_zero_tag {
        Ok(ResidualCodingMode::AllZero)
    } else if tag == spec.small_signed_rans_tag {
        Ok(ResidualCodingMode::SmallSignedRans)
    } else if tag == spec.sparse_positions_tag {
        Ok(ResidualCodingMode::SparsePositions)
    } else if tag == spec.literal_raw_tag {
        Ok(ResidualCodingMode::LiteralRaw)
    } else {
        Err(CodecError::InvalidResidualTag(tag))
    }
}

/// The little-endian value of two bytes.
pub open spec fn le16(a: u8, b: u8) -> int {
    a + 256 * b
}

/// The little-endian value of four bytes.
pub open spec fn le32(a: u8, b: u8, c: u8, d: u8) -> int {
    a + 256 * b + 65536 * c + 16777216 * d
}

/// What the header of a packed payload holds, by its bytes.
pub open spec fn parse_packed_header(p: Seq<u8>) -> Result<PackedHeader, CodecError> {
    if p.len() < 18 {
        Err(CodecError::TruncatedPayload { minimum: 18, actual: p.len() as usize })
    } else {
        match SourceKind::from_tag_spec(p[0]) {
            None => Err(CodecError::UnknownSourceKind(p[0])),
            Some(family) => if p[1] != 2 {
                Err(CodecError::InvalidPackedVersion(p[1]))
            } else {
                let original_len = le32(p[4], p[5], p[6], p[7]);
                let block_count = le16(p[8], p[9]);
                if original_len > 0 && block_count == 0 {
                    Err(CodecError::InvalidBlockCount)
                } else {
                    Ok(PackedHeader {
                        family,
                        pack_id: le16(p[2], p[3]) as u16,
                        original_len: original_len as u32,
                        block_count: block_count as u16,
                        code_len: le32(p[10], p[11], p[12], p[13]) as u32,
                        residual_len: le32(p[14], p[15], p[16], p[17]) as u32,
                    })
                }
            },
        }
    }
}

fn read_le16(p: &[u8], at: usize) -> (v: u16)
    requires
        at + 2 <= p@.len(),
    ensures
        v == le16(p@[at as int], p@[at + 1]),
{
    let a: u16 = p[at] as u16;
    let b: u16 = p[at + 1] as u16;
    a + 256 * b
}

fn read_le32(p: &[u8], at: usize) -> (v: u32)
    requires
        at + 4 <= p@.len(),
    ensures
        v == le32(p@[at as int], p@[at + 1], p@[at + 2], p@[at + 3]),
{
    let a: u32 = p[at] as u32;
    let b: u32 = p[at + 1] as u32;
    let c: u32 = p[at + 2] as u32;
    let d: u32 = p[at + 3] as u32;
    a + 256 * b + 65536 * c + 16777216 * d
}

/// Reads the header of a packed payload.
pub fn parse_packed_payload_header(payload: &[u8]) -> (r: Result<PackedHeader, CodecError>)
    ensures
        r == parse_packed_header(payload@),
{
    if payload.len() < PACKED_PAYLOAD_HEADER_LEN {
        return Err(CodecError::TruncatedPayload { minimum: PACKED_PAYLOAD_HEADER_LEN, actual: payload.len() });
    }
    let family = match SourceKind::from_tag(payload[0]) {
        Ok(k) => k,
        Err(_) => return Err(CodecError::UnknownSourceKind(payload[0])),
    };
    let version = payload[1];
    if version != PACKED_PAYLOAD_VERSION {
        return Err(CodecError::InvalidPackedVersion(version));
    }
    let pack_id = read_le16(payload, 2);
    let original_len = read_le32(payload, 4);
    let block_count = read_le16(payload, 8);
    if original_len > 0 && block_count == 0 {
        return Err(CodecError::InvalidBlockCount);
    }
    let code_len = read_le32(payload, 10);
    let residual_len = read_le32(payload, 14);
    Ok(PackedHeader { family, pack_id, original_len, block_count, code_len, residual_len })
}

/// A delta-encoded block: its family, original length and packed bytes.
#[derive(Debug, Clone, PartialEq, Eq)]
pub struct DeltaEncodedMaterial {
    pub source_kind: SourceKind,
    pub original_len: u32,
    pub bytes: Vec<u8>,
}

/// The payload of a delta-encoded block: its packed bytes.
pub fn encode_delta_payload(encoded: &DeltaEncodedMaterial) -> (out: Vec<u8>)
    ensures
        out@ == encoded.bytes@,
{
    let out = crate::wire::copy_range(encoded.bytes.as_slice(), 0, encoded.bytes.len());
    assert(encoded.bytes@.subrange(0, encoded.bytes@.len() as int) =~= encoded.bytes@);
    out
}

/// Reads a delta payload: the family and original length from its packed
/// header, the bytes kept whole.
pub fn decode_delta_payload(payload: &[u8]) -> (r: Result<DeltaEncodedMaterial, CodecError>)
    ensures
        match parse_packed_header(payload@) {
            Ok(h) => r is Ok && r->Ok_0.source_kind == h.family && r->Ok_0.original_len == h.original_len
                && r->Ok_0.bytes@ == payload@,
            Err(e) => r == Err::<DeltaEncodedMaterial, CodecError>(e),
        },
{
    let h = match parse_packed_payload_header(payload) {
        Ok(h) => h,
        Err(e) => return Err(e),
    };
    let bytes = crate::wire::copy_range(payload, 0, payload.len());
    assert(payload@.subrange(0, payload@.len() as int) =~= payload@);
    Ok(DeltaEncodedMaterial { source_kind: h.family, original_len: h.original_len, bytes })
}

/// What inspecting a payload of a given mode gives, by its bytes.
pub open spec fn inspect_spec(p: Seq<u8>, mode: CodecMode) -> Result<PayloadInspection, CodecError> {
    match mode {
        CodecMode::DirectExact => match parse_exact_payload(p) {
            Ok((k, _)) => Ok(PayloadInspection {
                source_kind: k,
                original_len: (p.len() - 1) as usize,
                residual_mode: ResidualCodingMode::Plain,
            }),
            Err(e) => Err(e),
        },
        CodecMode::Plain => Ok(PayloadInspection {
            source_kind: SourceKind::Binary,
            original_len: p.len() as usize,
            residual_mode: ResidualCodingMode::Plain,
        }),
        _ => match parse_packed_header(p) {
            Err(e) => Err(e),
            Ok(h) => {
                let end = 18 + h.code_len + h.residual_len;
                if p.len() != end {
                    Err(CodecError::PayloadLenMismatch { expected: end as usize, actual: p.len() as usize })
                } else {
                    Err(CodecError::AssetLoad)
                }
            },
        },
    }
}

/// Reads a payload's source kind, original length and residual mode: from the
/// tag for direct-exact payloads, as raw binary for plain ones, and from the
/// header for packed ones, whose residual tag table lies in the packed family
/// assets that this library does not hold.
pub fn inspect_data_payload(payload: &[u8], mode: CodecMode) -> (r: Result<PayloadInspection, CodecError>)
    ensures
        r == inspect_spec(payload@, mode),
{
    match mode {
        CodecMode::DirectExact => {
            if payload.len() < DIRECT_EXACT_HEADER_LEN {
                return Err(CodecError::TruncatedPayload { minimum: DIRECT_EXACT_HEADER_LEN, actual: payload.len() });
            }
            let family = match SourceKind::from_tag(payload[0]) {
                Ok(k) => k,
                Err(_) => return Err(CodecError::UnknownSourceKind(payload[0])),
            };
            Ok(PayloadInspection {
                source_kind: family,
                original_len: payload.len() - DIRECT_EXACT_HEADER_LEN,
                residual_mode: ResidualCodingMode::Plain,
            })
        },
        CodecMode::Plain => Ok(PayloadInspection {
            source_kind: SourceKind::Binary,
            original_len: payload.len(),
            residual_mode: ResidualCodingMode::Plain,
        }),
        _ => {
            let h = match parse_packed_payload_header(payload) {
                Ok(h) => h,
                Err(e) => return Err(e),
            };
            let end: u64 = 18 + h.code_len as u64 + h.residual_len as u64;
            if payload.len() as u64 != end {
                return Err(CodecError::PayloadLenMismatch { expected: end as usize, actual: payload.len() });
            }
            Err(CodecError::AssetLoad)
        },
    }
}

/// The predictor state for an item: ready when the predictor's entry is for
/// that item, empty otherwise.
pub fn predictor_state_for(current_item_id: ItemId, predictor_meta: Option<PredictorEntryMeta>) -> (s: PredictorState)
    ensures
        s == (match predictor_meta {
            Some(meta) => if meta.item_id == current_item_id {
                PredictorState::Ready(meta)
            } else {
                PredictorState::Empty
            },
            None => PredictorState::Empty,
        }),
{
    match predictor_meta {
        Some(meta) => if meta.item_id.0 == current_item_id.0 {
            PredictorState::Ready(meta)
        } else {
            PredictorState::Empty
        },
        None => PredictorState::Empty,
    }
}

/// The bytes a packed candidate must save over the direct-exact copy.
pub open spec fn minimum_win_spec(copy_len: int, exact_len: int) -> int {
    if exact_len <= 1024 {
        8
    } else {
        let c = (copy_len + 99) / 100;
        if c < 1 { 1 } else { c }
    }
}

fn minimum_packed_win(copy_len: usize, exact_len: usize) -> (w: usize)
    ensures
        w == minimum_win_spec(copy_len as int, exact_len as int),
{
    if exact_len <= 1024 {
        SMALL_PACKED_WIN_BYTES
    } else {
        let c: usize = copy_len / 100 + (if copy_len % 100 == 0 { 0 } else { 1 });
        assert(c == (copy_len + 99) / 100) by (nonlinear_arith)
            requires c == copy_len / 100 + (if copy_len % 100 == 0 { 0int } else { 1int });
        if c < 1 { 1 } else { c }
    }
}

/// Whether a candidate of `len` bytes wins over the copy by `minimum_win`.
pub open spec fn wins(len: int, copy_len: int, minimum_win: int) -> bool {
    len + minimum_win <= copy_len
}

/// The mode and length of the best encoding after considering the packed
/// candidates, then the predicted ones, in order: a candidate replaces the
/// current best when it wins over the copy and the best is still the copy or
/// longer than it.
pub open spec fn best_over(
    best: (CodecDecision, int),
    lens: Seq<usize>,
    mode: CodecDecision,
    copy_len: int,
    minimum_win: int,
) -> (CodecDecision, int)
    decreases lens.len(),
{
    if lens.len() == 0 {
        best
    } else {
        let prev = best_over(best, lens.drop_last(), mode, copy_len, minimum_win);
        let len = lens.last() as int;
        if wins(len, copy_len, minimum_win) && (prev.0 == CodecDecision::DirectExact || len < prev.1) {
            (mode, len)
        } else {
            prev
        }
    }
}

/// The decision that the codec makes from the lengths of the candidates.
pub open spec fn decision_spec(
    copy_len: int,
    exact_len: int,
    packed_lens: Seq<usize>,
    predicted_lens: Seq<usize>,
    use_predicted: bool,
    preference: DataPlaneCodecPreference,
) -> CodecDecision {
    if preference == DataPlaneCodecPreference::DirectExactOnly {
        CodecDecision::DirectExact
    } else {
        let w = minimum_win_spec(copy_len, exact_len);
        let after_packed = best_over((CodecDecision::DirectExact, copy_len), packed_lens, CodecDecision::PackedExact, copy_len, w);
        if use_predicted {
            best_over(after_packed, predicted_lens, CodecDecision::PredictedExact, copy_len, w).0
        } else {
            after_packed.0
        }
    }
}

fn best_over_exec(
    best: (CodecDecision, usize),
    lens: &[usize],
    mode: CodecDecision,
    copy_len: usize,
    minimum_win: usize,
) -> (r: (CodecDecision, usize))
    ensures
        (r.0, r.1 as int) == best_over((best.0, best.1 as int), lens@, mode, copy_len as int, minimum_win as int),
{
    let mut cur = best;
    let mut i: usize = 0;
    while i < lens.len()
        invariant
            i <= lens@.len(),
            (cur.0, cur.1 as int) == best_over((best.0, best.1 as int), lens@.subrange(0, i as int), mode, copy_len as int, minimum_win as int),
        decreases lens@.len() - i,
    {
        assert(lens@.subrange(0, i + 1).drop_last() =~= lens@.subrange(0, i as int));
        let len = lens[i];
        let w: bool = (len as u128) + (minimum_win as u128) <= copy_len as u128;
        if w && (cur.0 == CodecDecision::DirectExact || len < cur.1) {
            cur = (mode, len);
        }
        i = i + 1;
    }
    assert(lens@.subrange(0, i as int) =~= lens@);
    cur
}

/// Picks the codec mode from the length of the direct-exact copy, the exact
/// length, and the lengths of the packed and predicted candidate encodings
/// in the order they were tried: direct-exact when the preference forces it;
/// otherwise the shortest candidate that saves at least the minimum win
/// (eight bytes up to 1024 exact bytes, else one percent of the copy), the
/// first of equal ones, predicted candidates counting only when a predictor
/// is ready with a prediction.
pub fn choose_codec_mode_from_lengths(
    copy_len: usize,
    exact_len: usize,
    packed_lens: &[usize],
    predicted_lens: &[usize],
    use_predicted: bool,
    preference: DataPlaneCodecPreference,
) -> (d: CodecDecision)
    ensures
        d == decision_spec(copy_len as int, exact_len as int, packed_lens@, predicted_lens@, use_predicted, preference),
{
    if preference.forces_direct_exact() {
        return CodecDecision::DirectExact;
    }
    let w = minimum_packed_win(copy_len, exact_len);
    let after_packed = best_over_exec((CodecDecision::DirectExact, copy_len), packed_lens, CodecDecision::PackedExact, copy_len, w);
    if use_predicted {
        best_over_exec(after_packed, predicted_lens, CodecDecision::PredictedExact, copy_len, w).0
    } else {
        after_packed.0
    }
}

/// An encoded data-plane payload and the mode it was encoded in.
#[derive(Debug, Clone, PartialEq, Eq)]
pub struct EncodedPayload {
    pub mode: CodecMode,
    pub payload: Vec<u8>,
}

/// Encodes an item under a preference: the direct-exact copy when the
/// preference forces it; the adaptive preference needs the packed family
/// assets, which this library does not hold, and fails with `AssetLoad`.
pub fn encode_best_exact_payload_with_preference(
    current: &ExactStateMaterial,
    predictor_state: PredictorState,
    predicted: Option<&ExactStateMaterial>,
    preference: DataPlaneCodecPreference,
) -> (r: Result<EncodedPayload, CodecError>)
    requires
        current.exact_bytes@.len() < usize::MAX,
    ensures
        preference == DataPlaneCodecPreference::DirectExactOnly ==> r is Ok && r->Ok_0.mode
            == CodecMode::DirectExact && r->Ok_0.payload@ == exact_payload_bytes(*current),
        preference == DataPlaneCodecPreference::Adaptive ==> r == Err::<EncodedPayload, CodecError>(CodecError::AssetLoad),
{
    if preference.forces_direct_exact() {
        Ok(EncodedPayload { mode: CodecMode::DirectExact, payload: encode_exact_payload(current) })
    } else {
        Err(CodecError::AssetLoad)
    }
}

/// Encodes an item under the default preference: the direct-exact copy.
pub fn encode_best_exact_payload(
    current: &ExactStateMaterial,
    predictor_state: PredictorState,
    predicted: Option<&ExactStateMaterial>,
) -> (r: Result<EncodedPayload, CodecError>)
    requires
        current.exact_bytes@.len() < usize::MAX,
    ensures
        r is Ok && r->Ok_0.mode == CodecMode::DirectExact && r->Ok_0.payload@ == exact_payload_bytes(*current),
{
    encode_best_exact_payload_with_preference(current, predictor_state, predicted, DataPlaneCodecPreference::DirectExactOnly)
}

/// Decodes a payload of a given mode: direct-exact by its tag, plain as raw
/// binary; a predicted payload without a predictor fails with
/// `MissingPredictor`; packed payloads need the packed family assets.
pub fn decode_data_payload(
    payload: &[u8],
    mode: CodecMode,
    predicted: Option<&ExactStateMaterial>,
) -> (r: Result<ExactStateMaterial, CodecError>)
    ensures
        mode == CodecMode::DirectExact ==> match parse_exact_payload(payload@) {
            Ok((k, bytes)) => r is Ok && r->Ok_0.source_kind == k && r->Ok_0.exact_bytes@ == bytes,
            Err(e) => r == Err::<ExactStateMaterial, CodecError>(e),
        },
        mode == CodecMode::Plain ==> r is Ok && r->Ok_0.source_kind == SourceKind::Binary && r->Ok_0.exact_bytes@ == payload@,
        mode == CodecMode::PredictedExact && predicted is None ==> r == Err::<ExactStateMaterial, CodecError>(CodecError::MissingPredictor),
        mode == CodecMode::PackedExact || (mode == CodecMode::PredictedExact && predicted is Some) ==> r == Err::<ExactStateMaterial, CodecError>(CodecError::AssetLoad),
{
    match mode {
        CodecMode::DirectExact => decode_exact_payload(payload),
        CodecMode::Plain => Ok(ExactStateMaterial::copy_exact(SourceKind::Binary, payload)),
        CodecMode::PredictedExact => match predicted {
            None => Err(CodecError::MissingPredictor),
            Some(_) => Err(CodecError::AssetLoad),
        },
        CodecMode::PackedExact => Err(CodecError::AssetLoad),
    }
}

/// The codec mode for an item under a preference: the mode of the best
/// encoding, direct-exact when encoding fails.
pub fn choose_codec_mode_with_preference(
    current: &ExactStateMaterial,
    predictor_state: PredictorState,
    predicted: Option<&ExactStateMaterial>,
    preference: DataPlaneCodecPreference,
) -> (d: CodecDecision)
    requires
        current.exact_bytes@.len() < usize::MAX,
    ensures
        d == CodecDecision::DirectExact,
{
    match encode_best_exact_payload_with_preference(current, predictor_state, predicted, preference) {
        Ok(encoded) => match encoded.mode {
            CodecMode::PackedExact => CodecDecision::PackedExact,
            CodecMode::PredictedExact => CodecDecision::PredictedExact,
            _ => CodecDecision::DirectExact,
        },
        Err(_) => CodecDecision::DirectExact,
    }
}

/// The codec mode for an item under the default preference, which allows
/// only the direct-exact mode.
pub fn choose_codec_mode(
    current: &ExactStateMaterial,
    predictor_state: PredictorState,
    predicted: Option<&ExactStateMaterial>,
) -> (d: CodecDecision)
    requires
        current.exact_bytes@.len() < usize::MAX,
    ensures
        d == CodecDecision::DirectExact,
{
    choose_codec_mode_with_preference(current, predictor_state, predicted, DataPlaneCodecPreference::DirectExactOnly)
}

} // verus!
