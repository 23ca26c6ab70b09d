//! Record framing: identifiers, record headers and their 37-byte associated-data
//! encoding, header validation, and whole-record wire encoding.

use vstd::prelude::*;
use crate::chpmt::{MemoryPlane, ObjectKind, RouteFamily, SparseCue};
use crate::source::SourceKind;
use crate::wire::{append_bytes, copy_range, lemma_u16_le_roundtrip, lemma_u32_le_roundtrip, lemma_u64_le_roundtrip, push_u16_le, push_u32_le, push_u64_le, read_u16_le, read_u32_le, read_u64_le, u16_at, u16_le, u32_at, u32_le, u64_at, u64_le};

verus! {

pub const PROTOCOL_VERSION: u8 = 2;
pub const AUTH_TAG_LEN: usize = 16;
pub const HEADER_LEN: usize = 37;
pub const REKEY_SEED_LEN: usize = 32;
pub const REKEY_PAYLOAD_LEN: usize = 36;
pub const CLOSE_CODE_LEN: usize = 2;

#[derive(Debug, Clone, Copy, PartialEq, Eq, Hash, Default, Structural)]
pub struct StreamId(pub u64);

#[derive(Debug, Clone, Copy, PartialEq, Eq, Hash, Default, Structural)]
pub struct EpochId(pub u32);

#[derive(Debug, Clone, Copy, PartialEq, Eq, Hash, Default, Structural)]
pub struct SeqNo(pub u64);

#[derive(Debug, Clone, Copy, PartialEq, Eq, PartialOrd, Ord, Hash, Default, Structural)]
pub struct ItemId(pub u64);

#[derive(Debug, Clone, Copy, PartialEq, Eq, Default, Structural)]
pub enum RecordType {
    #[default]
    ExactState,
    Rekey,
    Resync,
    Close,
    SourceMeta,
    Repair,
    PredictiveConfirm,
    PredictiveCorrect,
    AssemblyDef,
    TransformDef,
    SchemaDef,
    EpisodeHint,
    ReplayHint,
    MemoryRetire,
    TransformCorrect,
    MemoryAck,
    /// One protected frame that wraps a whole batch of items.
    BatchEnvelope,
}

#[derive(Debug, Clone, Copy, PartialEq, Eq, Default, Structural)]
pub enum CodecMode {
    #[default]
    Plain,
    PackedExact,
    PredictedExact,
    DirectExact,
}

#[derive(Debug, Clone, Copy, PartialEq, Eq, Default, Structural)]
pub enum CacheOp {
    #[default]
    Insert,
    UpsertObject,
    Evict,
    Invalidate,
}

#[derive(Debug, Clone, Copy, PartialEq, Eq, Default, Structural)]
pub struct RecordFlags(pub u16);

pub const IS_EVICT: u16 = 1;
pub const IS_INVALIDATE: u16 = 2;
pub const POST_REKEY_CONFIRM: u16 = 4;
pub const DIRECT_STATE_FALLBACK: u16 = 8;
pub const SUBSTRATE_FALLBACK: u16 = 16;
/// The fallback was caused by a demoted transform route.
pub const TRANSFORM_DEMOTED_FALLBACK: u16 = 512;
/// The fallback was caused by a dependency missing on the peer.
pub const DEPENDENCY_UNAVAILABLE_FALLBACK: u16 = 64;
/// The fallback was caused by a failed assembly structuralization.
pub const ASSEMBLY_STRUCTURALIZATION_FALLBACK: u16 = 128;
/// The fallback was caused by an inadmissible schema dependency.
pub const SCHEMA_DEPENDENCY_INADMISSIBLE_FALLBACK: u16 = 256;
/// The payload is zstd-compressed.
pub const PAYLOAD_ZSTD: u16 = 1024;
/// The payload is `[dict_id: u64 le][zstd data compressed with that dictionary]`.
pub const PAYLOAD_ZSTD_DICT: u16 = 2048;
/// Every flag bit the protocol defines.
pub const KNOWN_MASK: u16 = 4063;

impl RecordFlags {
    pub fn empty() -> (f: Self)
        ensures
            f.0 == 0,
    {
        RecordFlags(0)
    }

    pub fn bits(self) -> (b: u16)
        ensures
            b == self.0,
    {
        self.0
    }

    pub fn from_bits(bits: u16) -> (f: Self)
        ensures
            f.0 == bits,
    {
        RecordFlags(bits)
    }

    pub open spec fn contains_spec(self, flag: u16) -> bool {
        (self.0 & flag) == flag
    }

    pub fn contains(self, flag: u16) -> (b: bool)
        ensures
            b == self.contains_spec(flag),
    {
        (self.0 & flag) == flag
    }

    pub fn insert(&mut self, flag: u16)
        ensures
            final(self).0 == old(self).0 | flag,
    {
        self.0 = self.0 | flag;
    }

    pub fn remove(&mut self, flag: u16)
        ensures
            final(self).0 == old(self).0 & !flag,
    {
        self.0 = self.0 & !flag;
    }
}

#[derive(Debug, Clone, Copy, PartialEq, Eq, Default, Structural)]
pub struct RecordHeader {
    pub version: u8,
    pub stream_id: StreamId,
    pub epoch_id: EpochId,
    pub seq_no: SeqNo,
    pub record_type: RecordType,
    pub codec_mode: CodecMode,
    pub flags: RecordFlags,
    pub item_id: ItemId,
    pub payload_len: u32,
}

#[derive(Debug, Clone, Copy, PartialEq, Eq, Structural)]
pub enum ValidationError {
    UnsupportedVersion(u8),
    UnknownReservedFlagBits(u16),
    InvalidDataFlags,
    InvalidDataPayloadContract,
    InvalidControlHeader,
    InvalidControlPayloadContract,
    InvalidSourceMetaHeader,
    InvalidCatalogOrRepairHeader,
    InvalidPredictiveHeader,
    PayloadLenMismatch { header_len: u32, actual_len: usize },
}

#[derive(Debug, Clone, PartialEq, Eq)]
pub enum WireError {
    InvalidPayload(String),
    UnknownRecordType(u8),
    UnknownCodecMode(u8),
    InvalidTransportFrameMagic,
    UnsupportedTransportFrameVersion(u8),
    InvalidTransportFrameHeaderLen { expected: usize, actual: usize },
    TruncatedTransportFrame { actual: usize, minimum: usize },
    TransportFramePayloadLenMismatch { expected: usize, actual: usize },
    TruncatedCompactTransportRecord { actual: usize, minimum: usize },
    CompactTransportRecordLenMismatch { expected: usize, actual: usize },
    InvalidHeaderLen { expected: usize, actual: usize },
    TruncatedRecord { actual: usize, minimum: usize },
    RecordLenMismatch { expected: usize, actual: usize },
    /// A wire discriminant of a retired record type (6, 7 or 8).
    RetiredDiscriminant(u8),
    Validation(ValidationError),
}

impl RecordType {
    /// The wire discriminant of the record type.
    pub open spec fn code_spec(self) -> u8 {
        match self {
            RecordType::ExactState => 17,
            RecordType::Rekey => 2,
            RecordType::Resync => 3,
            RecordType::Close => 4,
            RecordType::SourceMeta => 5,
            RecordType::Repair => 9,
            RecordType::PredictiveConfirm => 10,
            RecordType::PredictiveCorrect => 11,
            RecordType::AssemblyDef => 12,
            RecordType::TransformDef => 13,
            RecordType::SchemaDef => 14,
            RecordType::EpisodeHint => 15,
            RecordType::ReplayHint => 16,
            RecordType::MemoryRetire => 18,
            RecordType::TransformCorrect => 19,
            RecordType::MemoryAck => 20,
            RecordType::BatchEnvelope => 21,
        }
    }

    pub fn code(self) -> (c: u8)
        ensures
            c == self.code_spec(),
    {
        match self {
            RecordType::ExactState => 17,
            RecordType::Rekey => 2,
            RecordType::Resync => 3,
            RecordType::Close => 4,
            RecordType::SourceMeta => 5,
            RecordType::Repair => 9,
            RecordType::PredictiveConfirm => 10,
            RecordType::PredictiveCorrect => 11,
            RecordType::AssemblyDef => 12,
            RecordType::TransformDef => 13,
            RecordType::SchemaDef => 14,
            RecordType::EpisodeHint => 15,
            RecordType::ReplayHint => 16,
            RecordType::MemoryRetire => 18,
            RecordType::TransformCorrect => 19,
            RecordType::MemoryAck => 20,
            RecordType::BatchEnvelope => 21,
        }
    }

    /// The record type a wire discriminant names: 6, 7 and 8 are retired, and
    /// values outside 2..=21 are unknown.
    pub open spec fn from_code_spec(value: u8) -> Result<RecordType, WireError> {
        if value == 2 {
            Ok(RecordType::Rekey)
        } else if value == 3 {
            Ok(RecordType::Resync)
        } else if value == 4 {
            Ok(RecordType::Close)
        } else if value == 5 {
            Ok(RecordType::SourceMeta)
        } else if value == 6 || value == 7 || value == 8 {
            Err(WireError::RetiredDiscriminant(value))
        } else if value == 9 {
            Ok(RecordType::Repair)
        } else if value == 10 {
            Ok(RecordType::PredictiveConfirm)
        } else if value == 11 {
            Ok(RecordType::PredictiveCorrect)
        } else if value == 12 {
            Ok(RecordType::AssemblyDef)
        } else if value == 13 {
            Ok(RecordType::TransformDef)
        } else if value == 14 {
            Ok(RecordType::SchemaDef)
        } else if value == 15 {
            Ok(RecordType::EpisodeHint)
        } else if value == 16 {
            Ok(RecordType::ReplayHint)
        } else if value == 17 {
            Ok(RecordType::ExactState)
        } else if value == 18 {
            Ok(RecordType::MemoryRetire)
        } else if value == 19 {
            Ok(RecordType::TransformCorrect)
        } else if value == 20 {
            Ok(RecordType::MemoryAck)
        } else if value == 21 {
            Ok(RecordType::BatchEnvelope)
        } else {
            Err(WireError::UnknownRecordType(value))
        }
    }

    pub fn try_from_u8(value: u8) -> (r: Result<RecordType, WireError>)
        ensures
            r == RecordType::from_code_spec(value),
    {
        match value {
            2 => Ok(RecordType::Rekey),
            3 => Ok(RecordType::Resync),
            4 => Ok(RecordType::Close),
            5 => Ok(RecordType::SourceMeta),
            6 | 7 | 8 => Err(WireError::RetiredDiscriminant(value)),
            9 => Ok(RecordType::Repair),
            10 => Ok(RecordType::PredictiveConfirm),
            11 => Ok(RecordType::PredictiveCorrect),
            12 => Ok(RecordType::AssemblyDef),
            13 => Ok(RecordType::TransformDef),
            14 => Ok(RecordType::SchemaDef),
            15 => Ok(RecordType::EpisodeHint),
            16 => Ok(RecordType::ReplayHint),
            17 => Ok(RecordType::ExactState),
            18 => Ok(RecordType::MemoryRetire),
            19 => Ok(RecordType::TransformCorrect),
            20 => Ok(RecordType::MemoryAck),
            21 => Ok(RecordType::BatchEnvelope),
            other => Err(WireError::UnknownRecordType(other)),
        }
    }

    /// The route family a record of this type is accounted under.
    pub open spec fn route_family_spec(self) -> RouteFamily {
        match self {
            RecordType::PredictiveConfirm => RouteFamily::PredictiveConfirm,
            RecordType::PredictiveCorrect => RouteFamily::PredictiveCorrect,
            RecordType::ReplayHint => RouteFamily::Replay,
            _ => RouteFamily::DirectState,
        }
    }

    pub fn route_family(self) -> (r: RouteFamily)
        ensures
            r == self.route_family_spec(),
    {
        match self {
            RecordType::ExactState
            | RecordType::BatchEnvelope
            | RecordType::MemoryRetire
            | RecordType::MemoryAck => RouteFamily::DirectState,
            RecordType::PredictiveConfirm => RouteFamily::PredictiveConfirm,
            RecordType::PredictiveCorrect => RouteFamily::PredictiveCorrect,
            RecordType::TransformCorrect => RouteFamily::DirectState,
            RecordType::AssemblyDef => RouteFamily::DirectState,
            RecordType::TransformDef => RouteFamily::DirectState,
            RecordType::SchemaDef => RouteFamily::DirectState,
            RecordType::EpisodeHint => RouteFamily::DirectState,
            RecordType::ReplayHint => RouteFamily::Replay,
            RecordType::Rekey
            | RecordType::Resync
            | RecordType::Close
            | RecordType::SourceMeta
            | RecordType::Repair => RouteFamily::DirectState,
        }
    }

    /// The kind of object a record of this type carries.
    pub open spec fn object_kind_spec(self) -> ObjectKind {
        match self {
            RecordType::ExactState | RecordType::BatchEnvelope => ObjectKind::ExactState,
            RecordType::MemoryRetire | RecordType::MemoryAck => ObjectKind::PredictiveObject,
            RecordType::PredictiveConfirm | RecordType::PredictiveCorrect => ObjectKind::SparseCue,
            RecordType::TransformCorrect => ObjectKind::Transform,
            RecordType::AssemblyDef => ObjectKind::Assembly,
            RecordType::TransformDef => ObjectKind::Transform,
            RecordType::SchemaDef => ObjectKind::Schema,
            RecordType::EpisodeHint => ObjectKind::EpisodeHint,
            RecordType::ReplayHint => ObjectKind::ReplayHint,
            _ => ObjectKind::SourceDescriptor,
        }
    }

    pub fn object_kind(self) -> (k: ObjectKind)
        ensures
            k == self.object_kind_spec(),
    {
        match self {
            RecordType::ExactState | RecordType::BatchEnvelope => ObjectKind::ExactState,
            RecordType::MemoryRetire | RecordType::MemoryAck => ObjectKind::PredictiveObject,
            RecordType::PredictiveConfirm | RecordType::PredictiveCorrect => ObjectKind::SparseCue,
            RecordType::TransformCorrect => ObjectKind::Transform,
            RecordType::AssemblyDef => ObjectKind::Assembly,
            RecordType::TransformDef => ObjectKind::Transform,
            RecordType::SchemaDef => ObjectKind::Schema,
            RecordType::EpisodeHint => ObjectKind::EpisodeHint,
            RecordType::ReplayHint => ObjectKind::ReplayHint,
            RecordType::Rekey
            | RecordType::Resync
            | RecordType::Close
            | RecordType::SourceMeta
            | RecordType::Repair => ObjectKind::SourceDescriptor,
        }
    }
}

impl CodecMode {
    /// The wire discriminant of the codec mode.
    pub open spec fn code_spec(self) -> u8 {
        match self {
            CodecMode::Plain => 0,
            CodecMode::PackedExact => 1,
            CodecMode::PredictedExact => 2,
            CodecMode::DirectExact => 3,
        }
    }

    pub fn code(self) -> (c: u8)
        ensures
            c == self.code_spec(),
    {
        match self {
            CodecMode::Plain => 0,
            CodecMode::PackedExact => 1,
            CodecMode::PredictedExact => 2,
            CodecMode::DirectExact => 3,
        }
    }

    pub open spec fn from_code_spec(value: u8) -> Result<CodecMode, WireError> {
        if value == 0 {
            Ok(CodecMode::Plain)
        } else if value == 1 {
            Ok(CodecMode::PackedExact)
        } else if value == 2 {
            Ok(CodecMode::PredictedExact)
        } else if value == 3 {
            Ok(CodecMode::DirectExact)
        } else {
            Err(WireError::UnknownCodecMode(value))
        }
    }

    pub fn try_from_u8(value: u8) -> (r: Result<CodecMode, WireError>)
        ensures
            r == CodecMode::from_code_spec(value),
    {
        match value {
            0 => Ok(CodecMode::Plain),
            1 => Ok(CodecMode::PackedExact),
            2 => Ok(CodecMode::PredictedExact),
            3 => Ok(CodecMode::DirectExact),
            other => Err(WireError::UnknownCodecMode(other)),
        }
    }
}

/// The 37-byte associated data that encodes a header.
pub open spec fn header_bytes(h: RecordHeader) -> Seq<u8> {
    seq![h.version] + u64_le(h.stream_id.0) + u32_le(h.epoch_id.0) + u64_le(h.seq_no.0) + seq![
        h.record_type.code_spec(),
        h.codec_mode.code_spec(),
    ] + u16_le(h.flags.0) + u64_le(h.item_id.0) + u32_le(h.payload_len)
}

/// What decoding 37 bytes of associated data yields.
pub open spec fn parse_header(s: Seq<u8>) -> Result<RecordHeader, WireError> {
    if s.len() != HEADER_LEN {
        Err(WireError::InvalidHeaderLen { expected: HEADER_LEN, actual: s.len() as usize })
    } else {
        match RecordType::from_code_spec(s[21]) {
            Err(e) => Err(e),
            Ok(record_type) => match CodecMode::from_code_spec(s[22]) {
                Err(e) => Err(e),
                Ok(codec_mode) => Ok(
                    RecordHeader {
                        version: s[0],
                        stream_id: StreamId(u64_at(s, 1)),
                        epoch_id: EpochId(u32_at(s, 9)),
                        seq_no: SeqNo(u64_at(s, 13)),
                        record_type,
                        codec_mode,
                        flags: RecordFlags(u16_at(s, 23)),
                        item_id: ItemId(u64_at(s, 25)),
                        payload_len: u32_at(s, 33),
                    },
                ),
            },
        }
    }
}

/// The record-type-specific contract of a data header (exact state or batch envelope).
pub open spec fn data_header_check(h: RecordHeader) -> Result<(), ValidationError> {
    let is_evict = h.flags.contains_spec(IS_EVICT);
    let is_invalidate = h.flags.contains_spec(IS_INVALIDATE);
    if is_evict && is_invalidate {
        Err(ValidationError::InvalidDataFlags)
    } else if is_evict || is_invalidate {
        if h.payload_len != 0 || h.codec_mode != CodecMode::Plain || h.item_id == ItemId(0) {
            Err(ValidationError::InvalidDataFlags)
        } else {
            Ok(())
        }
    } else if h.record_type == RecordType::BatchEnvelope {
        Ok(())
    } else if h.item_id == ItemId(0) || h.payload_len == 0 || h.codec_mode == CodecMode::Plain {
        Err(ValidationError::InvalidDataPayloadContract)
    } else {
        Ok(())
    }
}

/// The contract of a rekey, resync or close header.
pub open spec fn control_header_check(h: RecordHeader) -> Result<(), ValidationError> {
    if h.codec_mode != CodecMode::Plain || h.item_id != ItemId(0) || (h.flags.0 & !POST_REKEY_CONFIRM)
        != 0 {
        Err(ValidationError::InvalidControlHeader)
    } else if h.record_type == RecordType::Rekey && h.payload_len != REKEY_PAYLOAD_LEN as u32 {
        Err(ValidationError::InvalidControlPayloadContract)
    } else if h.record_type == RecordType::Resync && h.payload_len != 0 && h.payload_len < 4 {
        Err(ValidationError::InvalidControlPayloadContract)
    } else if h.record_type == RecordType::Close && h.payload_len != 0 && h.payload_len
        != CLOSE_CODE_LEN as u32 {
        Err(ValidationError::InvalidControlPayloadContract)
    } else {
        Ok(())
    }
}

/// The contract of a repair header.
pub open spec fn repair_header_check(h: RecordHeader) -> Result<(), ValidationError> {
    if h.codec_mode != CodecMode::Plain || h.flags.0 != 0 || h.item_id != ItemId(0) || h.payload_len
        == 0 {
        Err(ValidationError::InvalidCatalogOrRepairHeader)
    } else {
        Ok(())
    }
}

/// The contract of a source-meta header.
pub open spec fn source_meta_header_check(h: RecordHeader) -> Result<(), ValidationError> {
    if h.codec_mode != CodecMode::Plain || h.flags.0 != 0 || h.item_id == ItemId(0) || h.payload_len
        == 0 {
        Err(ValidationError::InvalidSourceMetaHeader)
    } else {
        Ok(())
    }
}

/// The contract of a predictive-memory header: only the rekey-confirm and
/// compression flags, a non-zero item id, no codec, and a payload unless the record
/// is an episode or replay hint.
pub open spec fn predictive_header_check(h: RecordHeader) -> Result<(), ValidationError> {
    let allowed = POST_REKEY_CONFIRM | PAYLOAD_ZSTD | PAYLOAD_ZSTD_DICT;
    if (h.flags.0 & !allowed) != 0 || h.item_id == ItemId(0) || h.codec_mode != CodecMode::Plain {
        Err(ValidationError::InvalidPredictiveHeader)
    } else if h.record_type != RecordType::EpisodeHint && h.record_type != RecordType::ReplayHint
        && h.payload_len == 0 {
        Err(ValidationError::InvalidPredictiveHeader)
    } else {
        Ok(())
    }
}

/// Record types and codec modes are read back from their wire codes, no two
/// share a code, and a code that names none of them is refused.
pub proof fn lemma_wire_codes(t: RecordType, u: RecordType, c: CodecMode, d: CodecMode, value: u8)
    ensures
        RecordType::from_code_spec(t.code_spec()) == Ok::<RecordType, WireError>(t),
        t != u ==> t.code_spec() != u.code_spec(),
        CodecMode::from_code_spec(c.code_spec()) == Ok::<CodecMode, WireError>(c),
        c != d ==> c.code_spec() != d.code_spec(),
        RecordType::from_code_spec(value) matches Ok(x) ==> x.code_spec() == value,
        CodecMode::from_code_spec(value) matches Ok(x) ==> x.code_spec() == value,
        value > 21 ==> RecordType::from_code_spec(value) is Err,
        value > 3 ==> CodecMode::from_code_spec(value) is Err,
{
}

/// A record is accepted exactly when its header is and its payload has the
/// length the header declares; a refused header gives its own error, and a
/// wrong length is reported with both lengths.
pub proof fn lemma_record_check_rules(header: RecordHeader, payload: Seq<u8>)
    ensures
        (record_check(header, payload) is Ok) == (header_check(header) is Ok && payload.len() == header.payload_len),
        header_check(header) matches Err(e) ==> record_check(header, payload) == Err::<(), ValidationError>(e),
        header_check(header) is Ok && payload.len() != header.payload_len ==> record_check(header, payload) == Err::<
            (),
            ValidationError,
        >(ValidationError::PayloadLenMismatch { header_len: header.payload_len, actual_len: payload.len() as usize }),
{
}

/// What header validation guarantees. A header of another protocol version
/// is refused for its version, and an accepted header has this version and
/// no unknown flag bit. For an exact-state or batch header of this version
/// with known flags: evicting and invalidating at once is refused; an evict
/// or invalidate marker is accepted exactly when it names an item and has no
/// payload and no codec; a batch envelope is otherwise accepted; and any
/// other exact-state record is accepted exactly when it names an item,
/// carries a payload and uses a data-plane codec (packed, predicted or
/// direct), and is refused for its payload contract otherwise.
pub proof fn lemma_data_header_rules(h: RecordHeader)
    ensures
        h.version != PROTOCOL_VERSION ==> header_check(h) == Err::<(), ValidationError>(
            ValidationError::UnsupportedVersion(h.version),
        ),
        header_check(h) is Ok ==> h.version == PROTOCOL_VERSION && (h.flags.0 & !KNOWN_MASK) == 0,
        ({
            let evict = (h.flags.0 & IS_EVICT) == IS_EVICT;
            let invalidate = (h.flags.0 & IS_INVALIDATE) == IS_INVALIDATE;
            let data_codec = h.codec_mode == CodecMode::PackedExact || h.codec_mode == CodecMode::PredictedExact
                || h.codec_mode == CodecMode::DirectExact;
            let data_record = h.record_type == RecordType::ExactState || h.record_type
                == RecordType::BatchEnvelope;
            data_record && h.version == PROTOCOL_VERSION && (h.flags.0 & !KNOWN_MASK) == 0 ==> {
                &&& (evict && invalidate ==> header_check(h) == Err::<(), ValidationError>(
                    ValidationError::InvalidDataFlags,
                ))
                &&& (evict != invalidate ==> if h.payload_len == 0 && h.codec_mode == CodecMode::Plain && h.item_id.0
                    != 0 {
                    header_check(h) is Ok
                } else {
                    header_check(h) == Err::<(), ValidationError>(ValidationError::InvalidDataFlags)
                })
                &&& (!evict && !invalidate && h.record_type == RecordType::BatchEnvelope ==> header_check(h) is Ok)
                &&& (!evict && !invalidate && h.record_type == RecordType::ExactState ==> if h.item_id.0 != 0
                    && h.payload_len != 0 && data_codec {
                    header_check(h) is Ok
                } else {
                    header_check(h) == Err::<(), ValidationError>(ValidationError::InvalidDataPayloadContract)
                })
            }
        }),
{
}

/// What validation decides for the other kinds of header (of this version,
/// with known flags; an unknown flag bit is refused as such first). A
/// rekey, resync or close header is refused as a control header when it has
/// a codec, an item or a flag other than the rekey confirmation; then a
/// rekey must carry exactly its payload, a close nothing or its code, and a
/// resync nothing or at least four bytes, else its payload contract is
/// refused. A repair header is accepted exactly when it has no codec, flag
/// or item and some payload; a source-meta header exactly when it has no
/// codec or flag, an item and some payload; a predictive header exactly
/// when its flags are among the rekey confirmation and the two compression
/// flags, it names an item, has no codec, and carries a payload unless it is
/// an episode or replay hint.
pub proof fn lemma_other_header_rules(h: RecordHeader)
    ensures
        h.version == PROTOCOL_VERSION && (h.flags.0 & !KNOWN_MASK) != 0 ==> header_check(h) == Err::<
            (),
            ValidationError,
        >(ValidationError::UnknownReservedFlagBits(h.flags.0)),
        h.version == PROTOCOL_VERSION && (h.flags.0 & !KNOWN_MASK) == 0 ==> {
            let control = h.record_type == RecordType::Rekey || h.record_type == RecordType::Resync
                || h.record_type == RecordType::Close;
            let control_shape = h.codec_mode == CodecMode::Plain && h.item_id.0 == 0 && (h.flags.0
                & !POST_REKEY_CONFIRM) == 0;
            let control_payload = if h.record_type == RecordType::Rekey {
                h.payload_len == REKEY_PAYLOAD_LEN
            } else if h.record_type == RecordType::Close {
                h.payload_len == 0 || h.payload_len == CLOSE_CODE_LEN
            } else {
                h.payload_len == 0 || h.payload_len >= 4
            };
            let predictive = !control && h.record_type != RecordType::ExactState && h.record_type
                != RecordType::BatchEnvelope && h.record_type != RecordType::Repair && h.record_type
                != RecordType::SourceMeta;
            let hint = h.record_type == RecordType::EpisodeHint || h.record_type == RecordType::ReplayHint;
            &&& (control && !control_shape ==> header_check(h) == Err::<(), ValidationError>(
                ValidationError::InvalidControlHeader,
            ))
            &&& (control && control_shape && !control_payload ==> header_check(h) == Err::<(), ValidationError>(
                ValidationError::InvalidControlPayloadContract,
            ))
            &&& (control && control_shape && control_payload ==> header_check(h) is Ok)
            &&& (h.record_type == RecordType::Repair ==> if h.codec_mode == CodecMode::Plain && h.flags.0 == 0
                && h.item_id.0 == 0 && h.payload_len != 0 {
                header_check(h) is Ok
            } else {
                header_check(h) == Err::<(), ValidationError>(ValidationError::InvalidCatalogOrRepairHeader)
            })
            &&& (h.record_type == RecordType::SourceMeta ==> if h.codec_mode == CodecMode::Plain && h.flags.0 == 0
                && h.item_id.0 != 0 && h.payload_len != 0 {
                header_check(h) is Ok
            } else {
                header_check(h) == Err::<(), ValidationError>(ValidationError::InvalidSourceMetaHeader)
            })
            &&& (predictive ==> if (h.flags.0 & !(POST_REKEY_CONFIRM | PAYLOAD_ZSTD | PAYLOAD_ZSTD_DICT)) == 0
                && h.item_id.0 != 0 && h.codec_mode == CodecMode::Plain && (hint || h.payload_len != 0) {
                header_check(h) is Ok
            } else {
                header_check(h) == Err::<(), ValidationError>(ValidationError::InvalidPredictiveHeader)
            })
        },
{
}

/// The full validation verdict of a header.
pub open spec fn header_check(h: RecordHeader) -> Result<(), ValidationError> {
    if h.version != PROTOCOL_VERSION {
        Err(ValidationError::UnsupportedVersion(h.version))
    } else if (h.flags.0 & !KNOWN_MASK) != 0 {
        Err(ValidationError::UnknownReservedFlagBits(h.flags.0))
    } else {
        match h.record_type {
            RecordType::ExactState | RecordType::BatchEnvelope => data_header_check(h),
            RecordType::Rekey | RecordType::Resync | RecordType::Close => control_header_check(h),
            RecordType::SourceMeta => source_meta_header_check(h),
            RecordType::Repair => repair_header_check(h),
            _ => predictive_header_check(h),
        }
    }
}

fn validate_data_header(header: RecordHeader) -> (r: Result<(), ValidationError>)
    ensures
        r == data_header_check(header),
{
    let is_evict = header.flags.contains(IS_EVICT);
    let is_invalidate = header.flags.contains(IS_INVALIDATE);
    if is_evict && is_invalidate {
        return Err(ValidationError::InvalidDataFlags);
    }
    if is_evict || is_invalidate {
        if header.payload_len != 0 || header.codec_mode != CodecMode::Plain || header.item_id
            == ItemId(0) {
            return Err(ValidationError::InvalidDataFlags);
        }
        return Ok(());
    }
    if header.record_type == RecordType::BatchEnvelope {
        return Ok(());
    }
    let codec_ok = match header.codec_mode {
        CodecMode::PackedExact | CodecMode::PredictedExact | CodecMode::DirectExact => true,
        CodecMode::Plain => false,
    };
    if header.item_id == ItemId(0) || header.payload_len == 0 || !codec_ok {
        return Err(ValidationError::InvalidDataPayloadContract);
    }
    Ok(())
}

fn validate_control_header(header: RecordHeader) -> (r: Result<(), ValidationError>)
    ensures
        r == control_header_check(header),
{
    if header.codec_mode != CodecMode::Plain || header.item_id != ItemId(0) || (header.flags.bits()
        & !POST_REKEY_CONFIRM) != 0 {
        return Err(ValidationError::InvalidControlHeader);
    }
    match header.record_type {
        RecordType::Rekey => {
            if header.payload_len != REKEY_PAYLOAD_LEN as u32 {
                return Err(ValidationError::InvalidControlPayloadContract);
            }
        },
        RecordType::Resync => {
            if header.payload_len != 0 && header.payload_len < 4 {
                return Err(ValidationError::InvalidControlPayloadContract);
            }
        },
        RecordType::Close => {
            if header.payload_len != 0 && header.payload_len != CLOSE_CODE_LEN as u32 {
                return Err(ValidationError::InvalidControlPayloadContract);
            }
        },
        _ => {},
    }
    Ok(())
}

fn validate_catalog_or_repair_header(header: RecordHeader) -> (r: Result<(), ValidationError>)
    ensures
        r == repair_header_check(header),
{
    if header.codec_mode != CodecMode::Plain || header.flags.bits() != 0 || header.item_id
        != ItemId(0) || header.payload_len == 0 {
        return Err(ValidationError::InvalidCatalogOrRepairHeader);
    }
    Ok(())
}

fn validate_predictive_header(header: RecordHeader) -> (r: Result<(), ValidationError>)
    requires
        header.record_type != RecordType::ExactState,
    ensures
        r == predictive_header_check(header),
{
    let allowed_flags: u16 = POST_REKEY_CONFIRM | PAYLOAD_ZSTD | PAYLOAD_ZSTD_DICT;
    if header.flags.bits() & !allowed_flags != 0 || header.item_id == ItemId(0)
        || header.codec_mode != CodecMode::Plain {
        return Err(ValidationError::InvalidPredictiveHeader);
    }
    let requires_payload = !(header.record_type == RecordType::EpisodeHint || header.record_type
        == RecordType::ReplayHint);
    if requires_payload && header.payload_len == 0 {
        return Err(ValidationError::InvalidPredictiveHeader);
    }
    Ok(())
}

fn validate_source_meta_header(header: RecordHeader) -> (r: Result<(), ValidationError>)
    ensures
        r == source_meta_header_check(header),
{
    if header.codec_mode != CodecMode::Plain || header.flags.bits() != 0 || header.item_id
        == ItemId(0) || header.payload_len == 0 {
        return Err(ValidationError::InvalidSourceMetaHeader);
    }
    Ok(())
}

impl RecordHeader {
    /// Encodes the header as the 37 bytes of associated data that the record's
    /// authentication tag covers.
    pub fn aad_bytes(&self) -> (out: Vec<u8>)
        ensures
            out@ == header_bytes(*self),
            out@.len() == HEADER_LEN,
    {
        let mut out: Vec<u8> = Vec::new();
        out.push(self.version);
        push_u64_le(&mut out, self.stream_id.0);
        push_u32_le(&mut out, self.epoch_id.0);
        push_u64_le(&mut out, self.seq_no.0);
        out.push(self.record_type.code());
        out.push(self.codec_mode.code());
        push_u16_le(&mut out, self.flags.0);
        push_u64_le(&mut out, self.item_id.0);
        push_u32_le(&mut out, self.payload_len);
        assert(out@ =~= header_bytes(*self));
        out
    }

    pub fn from_aad_bytes(bytes: &[u8]) -> (r: Result<RecordHeader, WireError>)
        ensures
            r == parse_header(bytes@),
    {
        if bytes.len() != HEADER_LEN {
            return Err(WireError::InvalidHeaderLen { expected: HEADER_LEN, actual: bytes.len() });
        }
        let version = bytes[0];
        let stream_id = StreamId(read_u64_le(bytes, 1));
        let epoch_id = EpochId(read_u32_le(bytes, 9));
        let seq_no = SeqNo(read_u64_le(bytes, 13));
        let record_type = match RecordType::try_from_u8(bytes[21]) {
            Ok(t) => t,
            Err(e) => return Err(e),
        };
        let codec_mode = match CodecMode::try_from_u8(bytes[22]) {
            Ok(m) => m,
            Err(e) => return Err(e),
        };
        let flags = RecordFlags::from_bits(read_u16_le(bytes, 23));
        let item_id = ItemId(read_u64_le(bytes, 25));
        let payload_len = read_u32_le(bytes, 33);
        Ok(
            RecordHeader {
                version,
                stream_id,
                epoch_id,
                seq_no,
                record_type,
                codec_mode,
                flags,
                item_id,
                payload_len,
            },
        )
    }

    pub fn validate(self) -> (r: Result<RecordHeader, ValidationError>)
        ensures
            match header_check(self) {
                Ok(_) => r == Ok::<RecordHeader, ValidationError>(self),
                Err(e) => r == Err::<RecordHeader, ValidationError>(e),
            },
    {
        if self.version != PROTOCOL_VERSION {
            return Err(ValidationError::UnsupportedVersion(self.version));
        }
        if (self.flags.bits() & !KNOWN_MASK) != 0 {
            return Err(ValidationError::UnknownReservedFlagBits(self.flags.bits()));
        }
        let checked = match self.record_type {
            RecordType::ExactState => validate_data_header(self),
            RecordType::BatchEnvelope => validate_data_header(self),
            RecordType::Rekey | RecordType::Resync | RecordType::Close => validate_control_header(
                self,
            ),
            RecordType::SourceMeta => validate_source_meta_header(self),
            RecordType::Repair => validate_catalog_or_repair_header(self),
            _ => validate_predictive_header(self),
        };
        match checked {
            Ok(()) => Ok(self),
            Err(e) => Err(e),
        }
    }
}

/// Decoding the associated data of any header gives that header back.
pub proof fn lemma_header_roundtrip(h: RecordHeader)
    ensures
        parse_header(header_bytes(h)) == Ok::<RecordHeader, WireError>(h),
{
    let s = header_bytes(h);
    assert(s.len() == 37);
    assert(s.subrange(1, 9) =~= u64_le(h.stream_id.0));
    assert(s.subrange(9, 13) =~= u32_le(h.epoch_id.0));
    assert(s.subrange(13, 21) =~= u64_le(h.seq_no.0));
    assert(s.subrange(23, 25) =~= u16_le(h.flags.0));
    assert(s.subrange(25, 33) =~= u64_le(h.item_id.0));
    assert(s.subrange(33, 37) =~= u32_le(h.payload_len));
    lemma_u64_le_roundtrip(h.stream_id.0, s, 1);
    lemma_u32_le_roundtrip(h.epoch_id.0, s, 9);
    lemma_u64_le_roundtrip(h.seq_no.0, s, 13);
    lemma_u16_le_roundtrip(h.flags.0, s, 23);
    lemma_u64_le_roundtrip(h.item_id.0, s, 25);
    lemma_u32_le_roundtrip(h.payload_len, s, 33);
    assert(s[21] == h.record_type.code_spec());
    assert(s[22] == h.codec_mode.code_spec());
    assert(RecordType::from_code_spec(h.record_type.code_spec()) == Ok::<RecordType, WireError>(
        h.record_type,
    ));
    assert(CodecMode::from_code_spec(h.codec_mode.code_spec()) == Ok::<CodecMode, WireError>(
        h.codec_mode,
    ));
}

/// A record: header, payload and authentication tag.
#[derive(Debug, Clone, PartialEq, Eq)]
pub struct Record {
    pub header: RecordHeader,
    pub payload: Vec<u8>,
    pub auth_tag: [u8; 16],
}

/// The wire bytes of a record: associated data, payload, tag.
pub open spec fn record_bytes(header: RecordHeader, payload: Seq<u8>, tag: Seq<u8>) -> Seq<u8> {
    header_bytes(header) + payload + tag
}

/// Whether a record's header is valid and its payload has the declared length.
pub open spec fn record_check(header: RecordHeader, payload: Seq<u8>) -> Result<(), ValidationError> {
    match header_check(header) {
        Err(e) => Err(e),
        Ok(_) => if payload.len() != header.payload_len {
            Err(
                ValidationError::PayloadLenMismatch {
                    header_len: header.payload_len,
                    actual_len: payload.len() as usize,
                },
            )
        } else {
            Ok(())
        },
    }
}

/// The length of a record with a payload of `payload_len` bytes, saturated at `usize::MAX`.
pub open spec fn framed_record_len(payload_len: usize) -> usize {
    if HEADER_LEN + payload_len + AUTH_TAG_LEN > usize::MAX {
        usize::MAX
    } else {
        (HEADER_LEN + payload_len + AUTH_TAG_LEN) as usize
    }
}

fn record_len_for(payload_len: usize) -> (n: usize)
    ensures
        n == framed_record_len(payload_len),
{
    match payload_len.checked_add(HEADER_LEN + AUTH_TAG_LEN) {
        Some(n) => n,
        None => usize::MAX,
    }
}

/// The error, if any, that decoding `s` as a record fails with.
pub open spec fn record_parse_error(s: Seq<u8>) -> Option<WireError> {
    if s.len() < HEADER_LEN + AUTH_TAG_LEN {
        Some(
            WireError::TruncatedRecord {
                actual: s.len() as usize,
                minimum: (HEADER_LEN + AUTH_TAG_LEN) as usize,
            },
        )
    } else {
        match parse_header(s.subrange(0, HEADER_LEN as int)) {
            Err(e) => Some(e),
            Ok(h) => if s.len() != HEADER_LEN + h.payload_len + AUTH_TAG_LEN {
                Some(
                    WireError::RecordLenMismatch {
                        expected: framed_record_len(h.payload_len as usize),
                        actual: s.len() as usize,
                    },
                )
            } else {
                match record_check(
                    h,
                    s.subrange(HEADER_LEN as int, HEADER_LEN + h.payload_len),
                ) {
                    Err(e) => Some(WireError::Validation(e)),
                    Ok(_) => None,
                }
            },
        }
    }
}

impl Record {
    pub fn to_bytes(&self) -> (out: Vec<u8>)
        ensures
            out@ == record_bytes(self.header, self.payload@, self.auth_tag@),
    {
        let mut out = self.header.aad_bytes();
        append_bytes(&mut out, self.payload.as_slice());
        append_bytes(&mut out, self.auth_tag.as_slice());
        out
    }

    /// Decodes a record; on success the header is the decoded associated data,
    /// the payload the `payload_len` bytes after it and the tag the last 16 bytes.
    pub fn from_bytes(bytes: &[u8]) -> (r: Result<Record, WireError>)
        ensures
            match record_parse_error(bytes@) {
                Some(e) => r == Err::<Record, WireError>(e),
                None => r is Ok && parse_header(bytes@.subrange(0, HEADER_LEN as int)) == Ok::<
                    RecordHeader,
                    WireError,
                >(r->Ok_0.header) && r->Ok_0.payload@ == bytes@.subrange(
                    HEADER_LEN as int,
                    HEADER_LEN + r->Ok_0.header.payload_len,
                ) && r->Ok_0.auth_tag@ == bytes@.subrange(
                    bytes@.len() - AUTH_TAG_LEN,
                    bytes@.len() as int,
                ),
            },
    {
        if bytes.len() < HEADER_LEN + AUTH_TAG_LEN {
            return Err(
                WireError::TruncatedRecord {
                    actual: bytes.len(),
                    minimum: HEADER_LEN + AUTH_TAG_LEN,
                },
            );
        }
        let head = copy_range(bytes, 0, HEADER_LEN);
        let header = match RecordHeader::from_aad_bytes(head.as_slice()) {
            Ok(h) => h,
            Err(e) => return Err(e),
        };
        let payload_len = header.payload_len as usize;
        if bytes.len() - AUTH_TAG_LEN - HEADER_LEN != payload_len {
            return Err(
                WireError::RecordLenMismatch {
                    expected: record_len_for(payload_len),
                    actual: bytes.len(),
                },
            );
        }
        let tag_start: usize = bytes.len() - AUTH_TAG_LEN;
        let payload = copy_range(bytes, HEADER_LEN, tag_start);
        let mut auth_tag = [0u8; 16];
        let mut i: usize = 0;
        while i < 16
            invariant
                i <= 16,
                tag_start + 16 == bytes.len(),
                forall|j: int| 0 <= j < i ==> auth_tag@[j] == bytes@[tag_start + j],
            decreases 16 - i,
        {
            auth_tag[i] = bytes[tag_start + i];
            i = i + 1;
        }
        assert(auth_tag@ =~= bytes@.subrange(bytes@.len() - AUTH_TAG_LEN, bytes@.len() as int));
        let record = Record { header, payload, auth_tag };
        match record.validate() {
            Ok(r) => Ok(r),
            Err(e) => Err(WireError::Validation(e)),
        }
    }

    /// Checks the header and that the payload has the declared length.
    pub fn validate(self) -> (r: Result<Record, ValidationError>)
        ensures
            match record_check(self.header, self.payload@) {
                Ok(_) => r is Ok && r->Ok_0.header == self.header && r->Ok_0.payload@
                    == self.payload@ && r->Ok_0.auth_tag@ == self.auth_tag@,
                Err(e) => r == Err::<Record, ValidationError>(e),
            },
    {
        match self.header.validate() {
            Ok(_) => {},
            Err(e) => return Err(e),
        }
        if self.payload.len() != self.header.payload_len as usize {
            return Err(
                ValidationError::PayloadLenMismatch {
                    header_len: self.header.payload_len,
                    actual_len: self.payload.len(),
                },
            );
        }
        Ok(self)
    }
}

/// A valid record survives encoding and decoding unchanged.
pub proof fn lemma_record_roundtrip(header: RecordHeader, payload: Seq<u8>, tag: Seq<u8>)
    requires
        tag.len() == AUTH_TAG_LEN,
        record_check(header, payload) is Ok,
    ensures
        record_parse_error(record_bytes(header, payload, tag)) is None,
        parse_header(record_bytes(header, payload, tag).subrange(0, HEADER_LEN as int)) == Ok::<
            RecordHeader,
            WireError,
        >(header),
        record_bytes(header, payload, tag).subrange(
            HEADER_LEN as int,
            HEADER_LEN + header.payload_len,
        ) == payload,
        record_bytes(header, payload, tag).subrange(
            record_bytes(header, payload, tag).len() - AUTH_TAG_LEN,
            record_bytes(header, payload, tag).len() as int,
        ) == tag,
{
    let s = record_bytes(header, payload, tag);
    lemma_header_roundtrip(header);
    assert(s.subrange(0, HEADER_LEN as int) =~= header_bytes(header));
    assert(s.subrange(HEADER_LEN as int, HEADER_LEN + header.payload_len) =~= payload);
    assert(s.subrange(s.len() - AUTH_TAG_LEN, s.len() as int) =~= tag);
}

/// The codec predictor's knowledge of the previous item.
#[derive(Debug, Clone, Copy, PartialEq, Eq, Structural)]
pub struct PredictorEntryMeta {
    pub item_id: ItemId,
    pub source_kind: SourceKind,
    pub object_kind: ObjectKind,
    pub cue: SparseCue,
}

#[derive(Debug, Clone, Copy, PartialEq, Eq, Structural)]
pub enum PredictorState {
    Empty,
    Ready(PredictorEntryMeta),
}

impl PredictorState {
    pub fn requires_raw(self) -> (b: bool)
        ensures
            b == (self is Empty),
    {
        match self {
            PredictorState::Empty => true,
            PredictorState::Ready(_) => false,
        }
    }
}

#[derive(Debug, Clone, Copy, PartialEq, Eq, Structural)]
pub enum StreamState {
    Opening,
    Established,
    RekeyPending { next_epoch_id: EpochId },
    Closed,
}

/// Retirement notice for a predictive-memory object.
#[derive(Debug, Clone, PartialEq, Eq, Default)]
pub struct MemoryRetirePayload {
    pub version: u8,
    pub plane: MemoryPlane,
    pub object_kind: ObjectKind,
    pub object_id: String,
}

/// Acknowledgement of a predictive-memory record.
#[derive(Debug, Clone, PartialEq, Eq, Default)]
pub struct MemoryAckPayload {
    pub version: u8,
    pub plane: MemoryPlane,
    pub object_kind: ObjectKind,
    pub object_id: String,
    pub acked_record_type: RecordType,
    pub acked_seq_no: SeqNo,
}

/// Request to resynchronize a memory plane.
#[derive(Debug, Clone, PartialEq, Eq, Default)]
pub struct PlaneResyncPayload {
    pub version: u8,
    pub plane: MemoryPlane,
    pub object_kinds: Vec<ObjectKind>,
    pub reset_predictors: bool,
}

} // verus!
