//! Payload compression: zstd frames, binary and XOR deltas, slot-value and
//! columnar encodings, the self-describing compressed-payload envelope and the
//! bookkeeping that picks among them.

use vstd::prelude::*;
use crate::keyed::{has_key, U64Map};
use crate::chpmt::DictionaryId;
use std::collections::HashMap;
use std::io::{Read, Write};
use crate::source::SourceKind;
use crate::wire::{append_bytes, copy_range, lemma_u16_le_roundtrip, lemma_u32_le_roundtrip, lemma_u64_le_roundtrip, push_u16_le, push_u32_le, push_u64_le, read_u16_le, read_u32_le, read_u64_le, u16_at, u16_le, u32_at, u32_le, u64_at, u64_le};

verus! {

/// The zstd level every frame of the crate is written with.
pub const ZSTD_COMPRESSION_LEVEL: i32 = 3;
/// The largest payload a decompression in the envelope may produce.
pub const MAX_DECOMPRESSED_BYTES: usize = 10485760;

#[derive(Debug, Clone, PartialEq, Eq)]
pub enum CompressError {
    ZstdEncode(String),
    ZstdDecode(String),
    DecompressedTooLarge { actual: usize, max: usize },
    DeltaBaseLengthMismatch { expected: usize, actual: usize },
    DeltaCopyOutOfBounds { offset: u32, length: u32, base_len: usize },
    DeltaTargetLengthMismatch { expected: usize, actual: usize },
    DeltaTruncated { minimum: usize, actual: usize },
    DeltaInvalidVersion(u8),
    DeltaInvalidTag(u8),
    TemplateSlotCountMismatch { expected: usize, actual: usize },
    SlotValueTruncated,
    ColumnarDecode(String),
    ColumnarInvalidVersion(u8),
    ColumnarPayloadTruncated,
    DictionaryNotFound { source_kind: SourceKind, dict_id: u64 },
    InvalidCompressionTag(u8),
    CompressedPayloadTruncated { minimum: usize, actual: usize },
    DeltaBaseNotFound { base_item_id: u64 },
    TemplateNotFound { template_id: u64 },
    TemplateSyncDecode(String),
}

// ---------------------------------------------------------------------------
// zstd frames
// ---------------------------------------------------------------------------

/// The frame `zstd::encode_all` writes for `data` at `level`.
pub uninterp spec fn zstd_frame(data: Seq<u8>, level: i32) -> Seq<u8>;

/// What `zstd::decode_all` reads out of `frame`; `None` where it fails.
pub uninterp spec fn zstd_content(frame: Seq<u8>) -> Option<Seq<u8>>;

/// Calls `zstd::encode_all` on the bytes. When it succeeds, the result is the
/// frame it writes for these bytes at this level, and decoding that frame
/// gives the bytes back (zstd is lossless). When it fails nothing is said of
/// the message.
#[verifier::external_body]
pub(crate) fn zstd_encode_all(data: &[u8], level: i32) -> (r: Result<Vec<u8>, CompressError>)
    ensures
        r is Ok ==> r->Ok_0@ == zstd_frame(data@, level) && zstd_content(r->Ok_0@) == Some(data@),
        r is Err ==> r->Err_0 is ZstdEncode,
{
    match zstd::encode_all(data, level) {
        Ok(v) => Ok(v),
        Err(e) => Err(CompressError::ZstdEncode(e.to_string())),
    }
}

/// Calls `zstd::decode_all` on the bytes: it succeeds exactly when the bytes
/// hold a zstd stream, with that stream's content.
#[verifier::external_body]
pub(crate) fn zstd_decode_all(frame: &[u8]) -> (r: Result<Vec<u8>, CompressError>)
    ensures
        match zstd_content(frame@) {
            Some(c) => r is Ok && r->Ok_0@ == c,
            None => r is Err && r->Err_0 is ZstdDecode,
        },
{
    match zstd::decode_all(frame) {
        Ok(v) => Ok(v),
        Err(e) => Err(CompressError::ZstdDecode(e.to_string())),
    }
}

/// Compresses without a dictionary at the crate's level.
pub fn zstd_compress_raw(data: &[u8]) -> (r: Result<Vec<u8>, CompressError>)
    ensures
        r is Ok ==> r->Ok_0@ == zstd_frame(data@, ZSTD_COMPRESSION_LEVEL) && zstd_content(
            r->Ok_0@,
        ) == Some(data@),
        r is Err ==> r->Err_0 is ZstdEncode,
{
    zstd_encode_all(data, ZSTD_COMPRESSION_LEVEL)
}

/// Decompresses a frame, refusing content longer than `max_size`.
pub fn zstd_decompress_raw(data: &[u8], max_size: usize) -> (r: Result<Vec<u8>, CompressError>)
    ensures
        match zstd_content(data@) {
            None => r is Err && r->Err_0 is ZstdDecode,
            Some(c) => if c.len() > max_size {
                r == Err::<Vec<u8>, CompressError>(
                    CompressError::DecompressedTooLarge { actual: c.len() as usize, max: max_size },
                )
            } else {
                r is Ok && r->Ok_0@ == c
            },
        },
{
    let decompressed = zstd_decode_all(data)?;
    if decompressed.len() > max_size {
        return Err(
            CompressError::DecompressedTooLarge { actual: decompressed.len(), max: max_size },
        );
    }
    Ok(decompressed)
}

// ---------------------------------------------------------------------------
// Binary delta
// ---------------------------------------------------------------------------

pub const BINARY_DELTA_VERSION: u8 = 1;
/// Length of the chunks the delta matches on.
pub const DELTA_CHUNK: usize = 8;
/// Longest copy or literal run one operation carries.
pub const DELTA_MAX_RUN: usize = 65535;

/// One operation of a binary delta.
#[derive(Debug, Clone, PartialEq, Eq)]
pub enum DeltaOp {
    /// Copy `length` bytes starting at `offset` from the base.
    Copy { offset: u32, length: u32 },
    /// Insert these literal bytes.
    Insert(Vec<u8>),
}

/// A delta operation with its literal taken as a sequence.
pub enum DeltaOpModel {
    Copy { offset: u32, length: u32 },
    Insert(Seq<u8>),
}

impl View for DeltaOp {
    type V = DeltaOpModel;

    open spec fn view(&self) -> DeltaOpModel {
        match self {
            DeltaOp::Copy { offset, length } => DeltaOpModel::Copy { offset: *offset, length: *length },
            DeltaOp::Insert(d) => DeltaOpModel::Insert(d@),
        }
    }
}

#[derive(Debug, Clone, PartialEq, Eq)]
pub struct BinaryDelta {
    pub version: u8,
    pub original_len: u32,
    pub target_len: u32,
    pub ops: Vec<DeltaOp>,
}

/// The operations as models.
pub open spec fn op_models(ops: Seq<DeltaOp>) -> Seq<DeltaOpModel> {
    ops.map_values(|o: DeltaOp| o@)
}

/// The output of the first `n` operations on `base`, or the first copy that
/// leaves the base.
pub open spec fn apply_ops(ops: Seq<DeltaOpModel>, base: Seq<u8>, n: nat) -> Result<Seq<u8>, CompressError>
    decreases n,
{
    if n == 0 {
        Ok(Seq::empty())
    } else {
        match apply_ops(ops, base, (n - 1) as nat) {
            Err(e) => Err(e),
            Ok(out) => match ops[n - 1] {
                DeltaOpModel::Copy { offset, length } => if offset + length > base.len() {
                    Err(
                        CompressError::DeltaCopyOutOfBounds {
                            offset,
                            length,
                            base_len: base.len() as usize,
                        },
                    )
                } else {
                    Ok(out + base.subrange(offset as int, offset + length))
                },
                DeltaOpModel::Insert(d) => Ok(out + d),
            },
        }
    }
}

/// What applying a delta to `base` gives.
pub open spec fn delta_apply_spec(d: BinaryDelta, base: Seq<u8>) -> Result<Seq<u8>, CompressError> {
    if base.len() != d.original_len {
        Err(
            CompressError::DeltaBaseLengthMismatch {
                expected: d.original_len as usize,
                actual: base.len() as usize,
            },
        )
    } else {
        match apply_ops(op_models(d.ops@), base, d.ops@.len()) {
            Err(e) => Err(e),
            Ok(out) => if out.len() != d.target_len {
                Err(
                    CompressError::DeltaTargetLengthMismatch {
                        expected: d.target_len as usize,
                        actual: out.len() as usize,
                    },
                )
            } else {
                Ok(out)
            },
        }
    }
}

/// The wire bytes of the operations.
pub open spec fn ops_bytes(ops: Seq<DeltaOpModel>) -> Seq<u8>
    decreases ops.len(),
{
    if ops.len() == 0 {
        Seq::empty()
    } else {
        ops_bytes(ops.drop_last()) + match ops.last() {
            DeltaOpModel::Copy { offset, length } => seq![0u8] + u32_le(offset) + u16_le(
                length as u16,
            ),
            DeltaOpModel::Insert(d) => seq![1u8] + u16_le(d.len() as u16) + d,
        }
    }
}

/// The wire bytes of a delta.
pub open spec fn delta_bytes(d: BinaryDelta) -> Seq<u8> {
    seq![d.version] + u32_le(d.original_len) + u32_le(d.target_len) + ops_bytes(op_models(d.ops@))
        + seq![0xFFu8]
}

/// `x`, capped at `usize::MAX`.
pub open spec fn sat_usize(x: int) -> usize {
    if x > usize::MAX {
        usize::MAX
    } else {
        x as usize
    }
}

/// The operations read from `s` from offset `pos` on: reading stops at an end
/// marker or at the end of the bytes.
pub open spec fn parse_ops(s: Seq<u8>, pos: int) -> Result<Seq<DeltaOpModel>, CompressError>
    decreases s.len() - pos,
{
    if pos < 0 || pos >= s.len() {
        Ok(Seq::empty())
    } else if s[pos] == 0 {
        if pos + 7 > s.len() {
            Err(CompressError::DeltaTruncated { minimum: sat_usize(pos + 7), actual: s.len() as usize })
        } else {
            match parse_ops(s, pos + 7) {
                Err(e) => Err(e),
                Ok(rest) => Ok(
                    seq![
                        DeltaOpModel::Copy {
                            offset: u32_at(s, pos + 1),
                            length: u16_at(s, pos + 5) as u32,
                        },
                    ] + rest,
                ),
            }
        }
    } else if s[pos] == 1 {
        if pos + 3 > s.len() {
            Err(CompressError::DeltaTruncated { minimum: sat_usize(pos + 3), actual: s.len() as usize })
        } else if pos + 3 + u16_at(s, pos + 1) > s.len() {
            Err(
                CompressError::DeltaTruncated {
                    minimum: sat_usize(pos + 3 + u16_at(s, pos + 1)),
                    actual: s.len() as usize,
                },
            )
        } else {
            match parse_ops(s, pos + 3 + u16_at(s, pos + 1)) {
                Err(e) => Err(e),
                Ok(rest) => Ok(
                    seq![DeltaOpModel::Insert(s.subrange(pos + 3, pos + 3 + u16_at(s, pos + 1)))]
                        + rest,
                ),
            }
        }
    } else if s[pos] == 0xFF {
        Ok(Seq::empty())
    } else {
        Err(CompressError::DeltaInvalidTag(s[pos]))
    }
}

/// What decoding a delta from `s` gives: version, lengths and operations.
pub open spec fn parse_delta(s: Seq<u8>) -> Result<(u8, u32, u32, Seq<DeltaOpModel>), CompressError> {
    if s.len() < 9 {
        Err(CompressError::DeltaTruncated { minimum: 9, actual: s.len() as usize })
    } else if s[0] != BINARY_DELTA_VERSION {
        Err(CompressError::DeltaInvalidVersion(s[0]))
    } else {
        match parse_ops(s, 9) {
            Err(e) => Err(e),
            Ok(ops) => Ok((s[0], u32_at(s, 1), u32_at(s, 5), ops)),
        }
    }
}

/// Every operation carries at most a run's worth of bytes, so it encodes exactly.
pub open spec fn ops_encodable(ops: Seq<DeltaOpModel>) -> bool {
    forall|i: int|
        0 <= i < ops.len() ==> match #[trigger] ops[i] {
            DeltaOpModel::Copy { length, .. } => length <= DELTA_MAX_RUN,
            DeltaOpModel::Insert(d) => d.len() <= DELTA_MAX_RUN,
        }
}

/// The wire bytes of one operation.
pub open spec fn op_bytes(op: DeltaOpModel) -> Seq<u8> {
    match op {
        DeltaOpModel::Copy { offset, length } => seq![0u8] + u32_le(offset) + u16_le(length as u16),
        DeltaOpModel::Insert(d) => seq![1u8] + u16_le(d.len() as u16) + d,
    }
}

proof fn lemma_ops_bytes_concat(a: Seq<DeltaOpModel>, b: Seq<DeltaOpModel>)
    ensures
        ops_bytes(a + b) == ops_bytes(a) + ops_bytes(b),
    decreases b.len(),
{
    if b.len() == 0 {
        assert(a + b =~= a);
        assert(ops_bytes(a) + ops_bytes(b) =~= ops_bytes(a));
    } else {
        assert((a + b).drop_last() =~= a + b.drop_last());
        assert((a + b).last() == b.last());
        lemma_ops_bytes_concat(a, b.drop_last());
        assert(ops_bytes(a + b) == ops_bytes(a + b.drop_last()) + op_bytes(b.last()));
        assert(ops_bytes(b) == ops_bytes(b.drop_last()) + op_bytes(b.last()));
        assert(ops_bytes(a + b) =~= ops_bytes(a) + ops_bytes(b));
    }
}

proof fn lemma_ops_bytes_first(ops: Seq<DeltaOpModel>)
    requires
        ops.len() > 0,
    ensures
        ops_bytes(ops) == op_bytes(ops[0]) + ops_bytes(ops.drop_first()),
{
    let head = seq![ops[0]];
    assert(head + ops.drop_first() =~= ops);
    lemma_ops_bytes_concat(head, ops.drop_first());
    let e = head.drop_last();
    assert(e.len() == 0);
    assert(ops_bytes(e) =~= Seq::<u8>::empty());
    assert(head.last() == ops[0]);
    assert(ops_bytes(head) == ops_bytes(e) + op_bytes(ops[0]));
    assert(ops_bytes(head) =~= op_bytes(ops[0]));
}

/// One operation written at `pos`, in front of operations that read back as
/// `rest`, reads back in front of them.
proof fn lemma_parse_one_op(s: Seq<u8>, pos: int, first: DeltaOpModel, rest: Seq<DeltaOpModel>)
    requires
        0 <= pos,
        match first {
            DeltaOpModel::Copy { length, .. } => length <= DELTA_MAX_RUN,
            DeltaOpModel::Insert(d) => d.len() <= DELTA_MAX_RUN,
        },
        pos + op_bytes(first).len() <= s.len(),
        forall|i: int| 0 <= i < op_bytes(first).len() ==> s[pos + i] == #[trigger] op_bytes(first)[i],
        parse_ops(s, pos + op_bytes(first).len()) == Ok::<Seq<DeltaOpModel>, CompressError>(rest),
    ensures
        parse_ops(s, pos) == Ok::<Seq<DeltaOpModel>, CompressError>(seq![first] + rest),
{
    let fb = op_bytes(first);
    match first {
        DeltaOpModel::Copy { offset, length } => {
            assert(s[pos] == fb[0]);
            assert(s.subrange(pos + 1, pos + 5) =~= u32_le(offset)) by {
                assert forall|i: int| 0 <= i < 4 implies #[trigger] s.subrange(pos + 1, pos + 5)[i] == u32_le(offset)[i] by {
                    assert(s[pos + 1 + i] == fb[1 + i]);
                }
            }
            lemma_u32_le_roundtrip(offset, s, pos + 1);
            assert(s.subrange(pos + 5, pos + 7) =~= u16_le(length as u16)) by {
                assert forall|i: int| 0 <= i < 2 implies #[trigger] s.subrange(pos + 5, pos + 7)[i] == u16_le(length as u16)[i] by {
                    assert(s[pos + 5 + i] == fb[5 + i]);
                }
            }
            lemma_u16_le_roundtrip(length as u16, s, pos + 5);
        },
        DeltaOpModel::Insert(d) => {
            assert(s[pos] == fb[0]);
            assert(s.subrange(pos + 1, pos + 3) =~= u16_le(d.len() as u16)) by {
                assert forall|i: int| 0 <= i < 2 implies #[trigger] s.subrange(pos + 1, pos + 3)[i] == u16_le(d.len() as u16)[i] by {
                    assert(s[pos + 1 + i] == fb[1 + i]);
                }
            }
            lemma_u16_le_roundtrip(d.len() as u16, s, pos + 1);
            assert(u16_at(s, pos + 1) == d.len());
            assert(s.subrange(pos + 3, pos + 3 + d.len()) =~= d) by {
                assert forall|i: int| 0 <= i < d.len() implies #[trigger] s.subrange(pos + 3, pos + 3 + d.len())[i] == d[i] by {
                    assert(s[pos + 3 + i] == fb[3 + i]);
                }
            }
        },
    }
}

/// Operations written from `pos` on and followed by the end marker read back
/// as written.
proof fn lemma_parse_written_ops(s: Seq<u8>, pos: int, ops: Seq<DeltaOpModel>)
    requires
        0 <= pos,
        ops_encodable(ops),
        pos + ops_bytes(ops).len() < s.len(),
        s.subrange(pos, pos + ops_bytes(ops).len()) == ops_bytes(ops),
        s[pos + ops_bytes(ops).len()] == 0xFF,
    ensures
        parse_ops(s, pos) == Ok::<Seq<DeltaOpModel>, CompressError>(ops),
    decreases ops.len(),
{
    if ops.len() == 0 {
        assert(ops_bytes(ops) =~= Seq::<u8>::empty());
        assert(s[pos] == 0xFF);
        assert(ops =~= Seq::<DeltaOpModel>::empty());
    } else {
        let first = ops[0];
        let rest = ops.drop_first();
        lemma_ops_bytes_first(ops);
        let fb = op_bytes(first);
        let l = fb.len() as int;
        let all = ops_bytes(ops);
        let rl = ops_bytes(rest).len() as int;
        assert(ops_encodable(rest)) by {
            assert forall|i: int| 0 <= i < rest.len() implies match #[trigger] rest[i] {
                DeltaOpModel::Copy { length, .. } => length <= DELTA_MAX_RUN,
                DeltaOpModel::Insert(d) => d.len() <= DELTA_MAX_RUN,
            } by {
                assert(rest[i] == ops[i + 1]);
            }
        }
        assert forall|i: int| 0 <= i < l implies s[pos + i] == #[trigger] fb[i] by {
            assert(s.subrange(pos, pos + all.len())[i] == all[i]);
        }
        assert(s.subrange(pos + l, pos + l + rl) =~= ops_bytes(rest)) by {
            assert forall|i: int| 0 <= i < rl implies #[trigger] s.subrange(pos + l, pos + l + rl)[i] == ops_bytes(rest)[i] by {
                assert(s.subrange(pos, pos + all.len())[l + i] == all[l + i]);
            }
        }
        lemma_parse_written_ops(s, pos + l, rest);
        lemma_parse_one_op(s, pos, first, rest);
        assert(seq![first] + rest =~= ops);
    }
}

/// Reading back the wire form of a delta whose operations each carry at most
/// a run gives its version, lengths and operations.
pub proof fn lemma_binary_delta_encoding_roundtrip(d: BinaryDelta)
    requires
        d.version == BINARY_DELTA_VERSION,
        ops_encodable(op_models(d.ops@)),
    ensures
        parse_delta(delta_bytes(d)) == Ok::<(u8, u32, u32, Seq<DeltaOpModel>), CompressError>(
            (d.version, d.original_len, d.target_len, op_models(d.ops@)),
        ),
{
    let s = delta_bytes(d);
    let ops = op_models(d.ops@);
    let l = ops_bytes(ops).len() as int;
    assert(s.subrange(1, 5) =~= u32_le(d.original_len));
    lemma_u32_le_roundtrip(d.original_len, s, 1);
    assert(s.subrange(5, 9) =~= u32_le(d.target_len));
    lemma_u32_le_roundtrip(d.target_len, s, 5);
    assert(s.subrange(9, 9 + l) =~= ops_bytes(ops));
    assert(s[9 + l] == 0xFF);
    lemma_parse_written_ops(s, 9, ops);
}

/// FNV-1a over the bytes.
pub open spec fn fnv1a(data: Seq<u8>) -> u64
    decreases data.len(),
{
    if data.len() == 0 {
        0xcbf29ce484222325
    } else {
        vstd::wrapping::u64_specs::wrapping_mul(
            fnv1a(data.drop_last()) ^ (data.last() as u64),
            0x100000001b3u64,
        )
    }
}

fn simple_hash(data: &[u8]) -> (h: u64)
    ensures
        h == fnv1a(data@),
{
    let mut hash: u64 = 0xcbf29ce484222325;
    let mut i: usize = 0;
    while i < data.len()
        invariant
            i <= data@.len(),
            hash == fnv1a(data@.subrange(0, i as int)),
        decreases data@.len() - i,
    {
        proof {
            assert(data@.subrange(0, i + 1).drop_last() =~= data@.subrange(0, i as int));
        }
        hash = (hash ^ (data[i] as u64)).wrapping_mul(0x100000001b3);
        i = i + 1;
    }
    assert(data@.subrange(0, i as int) =~= data@);
    hash
}

/// The longest a run from `bo` in the base and `to` in the target can be:
/// what remains of either, and at most a run.
pub open spec fn run_limit(base: Seq<u8>, bo: int, target: Seq<u8>, to: int) -> int {
    let m = if base.len() - bo < target.len() - to { base.len() - bo } else { target.len() - to };
    if m > DELTA_MAX_RUN { DELTA_MAX_RUN as int } else { m }
}

/// `n` bytes agree from `bo` in the base and `to` in the target, and the
/// run stops there: at the limit or at a byte that differs.
pub open spec fn is_run(base: Seq<u8>, bo: int, target: Seq<u8>, to: int, n: int) -> bool {
    &&& 0 <= n <= run_limit(base, bo, target, to)
    &&& base.subrange(bo, bo + n) == target.subrange(to, to + n)
    &&& n < run_limit(base, bo, target, to) ==> base[bo + n] != target[to + n]
}

/// The length of the run from `bo` in the base and `to` in the target.
pub open spec fn run_len(base: Seq<u8>, bo: int, target: Seq<u8>, to: int) -> int {
    choose|n: int| is_run(base, bo, target, to, n)
}

/// A run has one length.
proof fn lemma_run_unique(base: Seq<u8>, bo: int, target: Seq<u8>, to: int, n: int)
    requires
        0 <= bo <= base.len(),
        0 <= to <= target.len(),
        is_run(base, bo, target, to, n),
    ensures
        run_len(base, bo, target, to) == n,
{
    let c = run_len(base, bo, target, to);
    assert(is_run(base, bo, target, to, c));
    if c < n {
        assert(base.subrange(bo, bo + n)[c] == target.subrange(to, to + n)[c]);
    } else if n < c {
        assert(base.subrange(bo, bo + c)[n] == target.subrange(to, to + c)[n]);
    }
}

/// How many bytes, up to a run, agree from `base_offset` in the base and
/// `target_offset` in the target.
fn extend_match(base: &[u8], base_offset: usize, target: &[u8], target_offset: usize) -> (n: usize)
    requires
        base_offset <= base@.len(),
        target_offset <= target@.len(),
    ensures
        n <= DELTA_MAX_RUN,
        base_offset + n <= base@.len(),
        target_offset + n <= target@.len(),
        base@.subrange(base_offset as int, base_offset + n) == target@.subrange(
            target_offset as int,
            target_offset + n,
        ),
        is_run(base@, base_offset as int, target@, target_offset as int, n as int),
        n == run_len(base@, base_offset as int, target@, target_offset as int),
{
    let base_remaining: usize = if base.len() > base_offset {
        base.len() - base_offset
    } else {
        0
    };
    let target_remaining: usize = if target.len() > target_offset {
        target.len() - target_offset
    } else {
        0
    };
    let mut max_match: usize = if base_remaining < target_remaining {
        base_remaining
    } else {
        target_remaining
    };
    if max_match > DELTA_MAX_RUN {
        max_match = DELTA_MAX_RUN;
    }
    let mut length: usize = 0;
    while length < max_match && base[base_offset + length] == target[target_offset + length]
        invariant
            length <= max_match,
            max_match <= DELTA_MAX_RUN,
            base_offset <= base@.len(),
            target_offset <= target@.len(),
            base@.len() <= usize::MAX,
            target@.len() <= usize::MAX,
            max_match == 0 || (base_offset + max_match <= base@.len() && target_offset + max_match
                <= target@.len()),
            length > 0 ==> base@.subrange(base_offset as int, base_offset + length)
                == target@.subrange(target_offset as int, target_offset + length),
        decreases max_match - length,
    {
        proof {
            if length > 0 {
                assert(base@.subrange(base_offset as int, base_offset + length + 1) =~= base@.subrange(
                    base_offset as int,
                    base_offset + length,
                ).push(base@[base_offset + length]));
                assert(target@.subrange(target_offset as int, target_offset + length + 1)
                    =~= target@.subrange(target_offset as int, target_offset + length).push(
                    target@[target_offset + length],
                ));
            } else {
                assert(base@.subrange(base_offset as int, base_offset + 1) =~= seq![base@[base_offset as int]]);
                assert(target@.subrange(target_offset as int, target_offset + 1) =~= seq![
                    target@[target_offset as int],
                ]);
            }
        }
        length = length + 1;
    }
    proof {
        if length == 0 {
            assert(base@.subrange(base_offset as int, base_offset as int) =~= target@.subrange(
                target_offset as int,
                target_offset as int,
            ));
        }
        assert(max_match == run_limit(base@, base_offset as int, target@, target_offset as int));
        lemma_run_unique(base@, base_offset as int, target@, target_offset as int, length as int);
    }
    length
}

/// Every copy is at least a chunk (eight bytes) long.
pub open spec fn copies_at_least_chunk(ops: Seq<DeltaOpModel>) -> bool {
    forall|i: int| 0 <= i < ops.len() ==> match #[trigger] ops[i] {
        DeltaOpModel::Copy { length, .. } => length >= DELTA_CHUNK,
        DeltaOpModel::Insert(_) => true,
    }
}

proof fn lemma_copies_push(ops: Seq<DeltaOp>, op: DeltaOp)
    requires
        copies_at_least_chunk(op_models(ops)),
        op@ matches DeltaOpModel::Copy { length, .. } ==> length >= DELTA_CHUNK,
    ensures
        copies_at_least_chunk(op_models(ops.push(op))),
{
    assert(op_models(ops.push(op)) =~= op_models(ops).push(op@));
}

/// Every copy reads inside the base and every literal is non-empty; both carry
/// at most a run.
pub open spec fn ops_well_formed(ops: Seq<DeltaOpModel>, base_len: nat) -> bool {
    forall|i: int|
        0 <= i < ops.len() ==> match #[trigger] ops[i] {
            DeltaOpModel::Copy { offset, length } => offset + length <= base_len && length
                <= DELTA_MAX_RUN,
            DeltaOpModel::Insert(d) => 0 < d.len() <= DELTA_MAX_RUN,
        }
}

proof fn lemma_apply_ops_push(ops: Seq<DeltaOpModel>, base: Seq<u8>, op: DeltaOpModel, out: Seq<u8>)
    requires
        apply_ops(ops, base, ops.len()) == Ok::<Seq<u8>, CompressError>(out),
    ensures
        apply_ops(ops.push(op), base, ops.len() + 1) == match op {
            DeltaOpModel::Copy { offset, length } => if offset + length > base.len() {
                Err(
                    CompressError::DeltaCopyOutOfBounds {
                        offset,
                        length,
                        base_len: base.len() as usize,
                    },
                )
            } else {
                Ok(out + base.subrange(offset as int, offset + length))
            },
            DeltaOpModel::Insert(d) => Ok::<Seq<u8>, CompressError>(out + d),
        },
{
    lemma_apply_ops_prefix(ops, ops.push(op), base, ops.len());
}

proof fn lemma_apply_ops_prefix(a: Seq<DeltaOpModel>, b: Seq<DeltaOpModel>, base: Seq<u8>, n: nat)
    requires
        n <= a.len(),
        n <= b.len(),
        forall|i: int| 0 <= i < n ==> a[i] == b[i],
    ensures
        apply_ops(a, base, n) == apply_ops(b, base, n),
    decreases n,
{
    if n > 0 {
        lemma_apply_ops_prefix(a, b, base, (n - 1) as nat);
    }
}


/// The output one operation adds.
pub open spec fn op_output(op: DeltaOpModel, base: Seq<u8>) -> Seq<u8> {
    match op {
        DeltaOpModel::Copy { offset, length } => base.subrange(offset as int, offset + length),
        DeltaOpModel::Insert(d) => d,
    }
}

/// Where chunking the base stops: nine bytes short of its end.
pub open spec fn chunk_limit(len: nat) -> nat {
    if len > DELTA_CHUNK + 1 { (len - (DELTA_CHUNK + 1)) as nat } else { 0 }
}

/// How many chunks are indexed: those starting below the limit.
pub open spec fn chunk_count(len: nat) -> nat {
    (chunk_limit(len) + 7) / 8
}

/// The index after the first `j` chunks: each chunk's hash mapped to its
/// offset, a later chunk taking the place of an earlier one with its hash.
pub open spec fn chunk_map(base: Seq<u8>, j: nat) -> Map<u64, usize>
    decreases j,
{
    if j == 0 {
        Map::empty()
    } else {
        let off = 8 * (j - 1);
        chunk_map(base, (j - 1) as nat).insert(fnv1a(base.subrange(off, off + 8)), off as usize)
    }
}

/// The hash of every eight-byte chunk of the base at a multiple of eight
/// (short of its last nine bytes), each mapped to the last offset with it.
fn index_base_chunks(base: &[u8]) -> (m: U64Map<usize>)
    ensures
        m.wf(),
        m.map() == chunk_map(base@, chunk_count(base@.len())),
        forall|k: u64| #[trigger] m.map().contains_key(k) ==> m.map()[k] + DELTA_CHUNK <= base@.len(),
{
    let mut base_chunks: U64Map<usize> = U64Map::new();
    let blen = base.len();
    let limit: usize = if blen > DELTA_CHUNK + 1 {
        blen - (DELTA_CHUNK + 1)
    } else {
        0
    };
    let mut offset: usize = 0;
    let ghost mut j: nat = 0;
    assert(chunk_map(base@, 0) =~= Map::<u64, usize>::empty());
    while offset < limit
        invariant
            base_chunks.wf(),
            blen == base@.len(),
            limit == chunk_limit(base@.len()),
            limit + DELTA_CHUNK + 1 <= blen || limit == 0,
            offset <= limit,
            offset < limit ==> offset == 8 * j,
            offset >= limit ==> j == chunk_count(base@.len()),
            base_chunks.map() == chunk_map(base@, j),
            forall|k: u64| #[trigger]
                base_chunks.map().contains_key(k) ==> base_chunks.map()[k] + DELTA_CHUNK
                    <= base@.len(),
        decreases limit - offset,
    {
        let chunk = copy_range(base, offset, offset + DELTA_CHUNK);
        let hash = simple_hash(chunk.as_slice());
        base_chunks.insert(hash, offset);
        proof {
            assert(8 * ((j + 1) - 1) == 8 * j);
            j = j + 1;
        }
        if limit - offset < DELTA_CHUNK {
            proof {
                let jj = (j - 1) as int;
                assert((limit + 7) / 8 == jj + 1) by (nonlinear_arith)
                    requires
                        8 * jj < limit,
                        limit < 8 * jj + 8,
                        jj >= 0,
                ;
            }
            offset = limit;
        } else {
            offset = offset + DELTA_CHUNK;
            proof {
                if offset >= limit {
                    let jj = j as int;
                    assert((limit + 7) / 8 == jj) by (nonlinear_arith)
                        requires
                            limit == 8 * jj,
                            jj >= 1,
                    ;
                }
            }
        }
    }
    base_chunks
}

/// What the chunk index finds for the target at `pos`: when eight bytes
/// remain and their hash is indexed, the run from that base offset, kept
/// when it is at least eight bytes long; otherwise nothing, `(0, 0)`.
pub open spec fn chunk_match(base: Seq<u8>, target: Seq<u8>, pos: int, m: Map<u64, usize>) -> (usize, usize) {
    let h = fnv1a(target.subrange(pos, pos + 8));
    if target.len() - pos >= DELTA_CHUNK && m.contains_key(h) {
        let off = m[h];
        let n = run_len(base, off as int, target, pos);
        if n >= DELTA_CHUNK { (off, n as usize) } else { (0, 0) }
    } else {
        (0, 0)
    }
}

/// A run of at least eight bytes of the target at `pos` found in the base
/// through the chunk index, as (offset, length); length zero when none.
fn find_chunk_match(base: &[u8], target: &[u8], pos: usize, chunks: &U64Map<usize>) -> (r: (
    usize,
    usize,
))
    requires
        chunks.wf(),
        forall|k: u64| #[trigger] chunks.map().contains_key(k) ==> chunks.map()[k] + DELTA_CHUNK <= base@.len(),
        pos < target@.len(),
    ensures
        r.1 == 0 || (DELTA_CHUNK <= r.1 <= DELTA_MAX_RUN && r.0 + r.1 <= base@.len() && pos + r.1
            <= target@.len() && base@.subrange(r.0 as int, r.0 + r.1) == target@.subrange(
            pos as int,
            pos + r.1,
        )),
        r == chunk_match(base@, target@, pos as int, chunks.map()),
{
    if target.len() - pos >= DELTA_CHUNK {
        let window = copy_range(target, pos, pos + DELTA_CHUNK);
        let target_hash = simple_hash(window.as_slice());
        match chunks.get(target_hash) {
            Some(found) => {
                let base_offset = *found;
                let match_len = extend_match(base, base_offset, target, pos);
                if match_len >= DELTA_CHUNK {
                    return (base_offset, match_len);
                }
            },
            None => {},
        }
    }
    (0, 0)
}

/// Appends one operation, which extends the output the operations describe.
fn push_delta_op(
    ops: &mut Vec<DeltaOp>,
    op: DeltaOp,
    Ghost(base): Ghost<Seq<u8>>,
    Ghost(done): Ghost<Seq<u8>>,
)
    requires
        base.len() <= u32::MAX ==> ops_well_formed(op_models(old(ops)@), base.len()),
        base.len() <= u32::MAX ==> apply_ops(op_models(old(ops)@), base, old(ops)@.len()) == Ok::<
            Seq<u8>,
            CompressError,
        >(done),
        base.len() <= u32::MAX ==> match op@ {
            DeltaOpModel::Copy { offset, length } => offset + length <= base.len() && length
                <= DELTA_MAX_RUN,
            DeltaOpModel::Insert(d) => 0 < d.len() <= DELTA_MAX_RUN,
        },
    ensures
        final(ops)@ == old(ops)@.push(op),
        base.len() <= u32::MAX ==> ops_well_formed(op_models(final(ops)@), base.len()),
        base.len() <= u32::MAX ==> apply_ops(op_models(final(ops)@), base, final(ops)@.len()) == Ok::<
            Seq<u8>,
            CompressError,
        >(done + op_output(op@, base)),
{
    let ghost before = ops@;
    let ghost m = op@;
    ops.push(op);
    proof {
        assert(op_models(ops@) =~= op_models(before).push(m));
        if base.len() <= u32::MAX {
            lemma_apply_ops_push(op_models(before), base, m, done);
        }
    }
}

impl BinaryDelta {
    /// Computes a delta from `base` to `target`: runs of at least eight bytes
    /// found in the base (located by hashing eight-byte chunks of the base)
    /// become copies, everything else literals.
    pub fn compute(base: &[u8], target: &[u8]) -> (d: BinaryDelta)
        ensures
            d.version == BINARY_DELTA_VERSION,
            d.original_len == #[verifier::truncate] (base@.len() as u32),
            d.target_len == #[verifier::truncate] (target@.len() as u32),
            base@.len() <= u32::MAX ==> ops_well_formed(op_models(d.ops@), base@.len()),
            base@.len() <= u32::MAX ==> ops_encodable(op_models(d.ops@)),
            base@.len() <= u32::MAX ==> apply_ops(op_models(d.ops@), base@, d.ops@.len()) == Ok::<
                Seq<u8>,
                CompressError,
            >(target@),
            copies_at_least_chunk(op_models(d.ops@)),
            target@.len() == 0 ==> d.ops@.len() == 0,
    {
        let mut ops: Vec<DeltaOp> = Vec::new();
        let base_chunks = index_base_chunks(base);
        let mut literal: Vec<u8> = Vec::new();
        let mut pos: usize = 0;
        let ghost mut done: Seq<u8> = Seq::empty();
        while pos < target.len()
            invariant
                base_chunks.wf(),
                forall|k: u64| #[trigger]
                    base_chunks.map().contains_key(k) ==> base_chunks.map()[k] + DELTA_CHUNK
                        <= base@.len(),
                pos <= target@.len(),
                literal@.len() < DELTA_MAX_RUN,
                base@.len() <= u32::MAX ==> ops_well_formed(op_models(ops@), base@.len()),
                base@.len() <= u32::MAX ==> apply_ops(op_models(ops@), base@, ops@.len()) == Ok::<
                    Seq<u8>,
                    CompressError,
                >(done),
                done + literal@ == target@.subrange(0, pos as int),
                copies_at_least_chunk(op_models(ops@)),
                pos == 0 ==> ops@.len() == 0 && literal@.len() == 0,
            decreases target@.len() - pos,
        {
            let (best_offset, best_length) = find_chunk_match(base, target, pos, &base_chunks);
            if best_length >= DELTA_CHUNK {
                if literal.len() > 0 {
                    let flushed = copy_range(literal.as_slice(), 0, literal.len());
                    assert(flushed@ =~= literal@);
                    let ghost ops0 = ops@;
                    let ghost opv = DeltaOp::Insert(flushed);
                    push_delta_op(&mut ops, DeltaOp::Insert(flushed), Ghost(base@), Ghost(done));
                    proof {
                        lemma_copies_push(ops0, opv);
                        done = done + literal@;
                    }
                    literal = Vec::new();
                }
                let op = DeltaOp::Copy {
                    offset: #[verifier::truncate] (best_offset as u32),
                    length: best_length as u32,
                };
                let ghost ops1 = ops@;
                push_delta_op(&mut ops, op, Ghost(base@), Ghost(done));
                proof {
                    lemma_copies_push(ops1, op);
                    done = done + base@.subrange(best_offset as int, best_offset + best_length);
                    assert(done + literal@ =~= target@.subrange(0, pos + best_length));
                }
                pos = pos + best_length;
            } else {
                let ghost lit0 = literal@;
                literal.push(target[pos]);
                proof {
                    assert(target@.subrange(0, pos + 1) =~= target@.subrange(0, pos as int).push(
                        target@[pos as int],
                    ));
                    assert(done + literal@ =~= (done + lit0).push(target@[pos as int]));
                }
                pos = pos + 1;
                if literal.len() >= DELTA_MAX_RUN {
                    let flushed = copy_range(literal.as_slice(), 0, literal.len());
                    assert(flushed@ =~= literal@);
                    let ghost ops0 = ops@;
                    let ghost opv = DeltaOp::Insert(flushed);
                    push_delta_op(&mut ops, DeltaOp::Insert(flushed), Ghost(base@), Ghost(done));
                    proof {
                        lemma_copies_push(ops0, opv);
                        done = done + literal@;
                    }
                    literal = Vec::new();
                    assert(done + literal@ =~= done);
                }
            }
        }
        if literal.len() > 0 {
            let ghost lit = literal@;
            let ghost ops2 = ops@;
            let ghost opl = DeltaOp::Insert(literal);
            push_delta_op(&mut ops, DeltaOp::Insert(literal), Ghost(base@), Ghost(done));
            proof {
                lemma_copies_push(ops2, opl);
                done = done + lit;
            }
        }
        proof {
            assert(done =~= target@);
        }
        BinaryDelta {
            version: BINARY_DELTA_VERSION,
            original_len: #[verifier::truncate] (base.len() as u32),
            target_len: #[verifier::truncate] (target.len() as u32),
            ops,
        }
    }

    /// Rebuilds the target from the base.
    pub fn apply(&self, base: &[u8]) -> (r: Result<Vec<u8>, CompressError>)
        ensures
            match delta_apply_spec(*self, base@) {
                Ok(out) => r is Ok && r->Ok_0@ == out,
                Err(e) => r == Err::<Vec<u8>, CompressError>(e),
            },
    {
        if base.len() != self.original_len as usize {
            return Err(
                CompressError::DeltaBaseLengthMismatch {
                    expected: self.original_len as usize,
                    actual: base.len(),
                },
            );
        }
        let mut result: Vec<u8> = Vec::new();
        let mut i: usize = 0;
        while i < self.ops.len()
            invariant
                i <= self.ops@.len(),
                base@.len() == self.original_len,
                apply_ops(op_models(self.ops@), base@, i as nat) == Ok::<Seq<u8>, CompressError>(
                    result@,
                ),
            decreases self.ops@.len() - i,
        {
            match &self.ops[i] {
                DeltaOp::Copy { offset, length } => {
                    if (*offset as u64) + (*length as u64) > base.len() as u64 {
                        proof {
                            lemma_apply_ops_err_sticks(
                                op_models(self.ops@),
                                base@,
                                (i + 1) as nat,
                                self.ops@.len(),
                            );
                        }
                        return Err(
                            CompressError::DeltaCopyOutOfBounds {
                                offset: *offset,
                                length: *length,
                                base_len: base.len(),
                            },
                        );
                    }
                    let start = *offset as usize;
                    let end = start + *length as usize;
                    let piece = copy_range(base, start, end);
                    append_bytes(&mut result, piece.as_slice());
                },
                DeltaOp::Insert(data) => {
                    append_bytes(&mut result, data.as_slice());
                },
            }
            i = i + 1;
        }
        if result.len() != self.target_len as usize {
            return Err(
                CompressError::DeltaTargetLengthMismatch {
                    expected: self.target_len as usize,
                    actual: result.len(),
                },
            );
        }
        Ok(result)
    }

    /// The compact wire form: version, the two lengths, the operations and an
    /// end marker.
    pub fn encode_to_bytes(&self) -> (out: Vec<u8>)
        ensures
            out@ == delta_bytes(*self),
    {
        let mut out: Vec<u8> = Vec::new();
        out.push(self.version);
        push_u32_le(&mut out, self.original_len);
        push_u32_le(&mut out, self.target_len);
        let ghost head = out@;
        assert(head =~= seq![self.version] + u32_le(self.original_len) + u32_le(self.target_len));
        let mut i: usize = 0;
        while i < self.ops.len()
            invariant
                i <= self.ops@.len(),
                out@ == head + ops_bytes(op_models(self.ops@.subrange(0, i as int))),
            decreases self.ops@.len() - i,
        {
            let ghost prev = out@;
            match &self.ops[i] {
                DeltaOp::Copy { offset, length } => {
                    out.push(0);
                    push_u32_le(&mut out, *offset);
                    push_u16_le(&mut out, #[verifier::truncate] (*length as u16));
                },
                DeltaOp::Insert(data) => {
                    out.push(1);
                    push_u16_le(&mut out, #[verifier::truncate] (data.len() as u16));
                    append_bytes(&mut out, data.as_slice());
                },
            }
            proof {
                let sub = self.ops@.subrange(0, i + 1);
                assert(op_models(sub).drop_last() =~= op_models(self.ops@.subrange(0, i as int)));
                assert(op_models(sub).last() == self.ops@[i as int]@);
                assert(out@ =~= head + ops_bytes(op_models(sub)));
            }
            i = i + 1;
        }
        assert(self.ops@.subrange(0, i as int) =~= self.ops@);
        out.push(0xFF);
        out
    }

    /// Reads a delta back from its wire form.
    pub fn decode_from_bytes(bytes: &[u8]) -> (r: Result<BinaryDelta, CompressError>)
        ensures
            match parse_delta(bytes@) {
                Ok((version, original_len, target_len, ops)) => r is Ok && r->Ok_0.version
                    == version && r->Ok_0.original_len == original_len && r->Ok_0.target_len
                    == target_len && op_models(r->Ok_0.ops@) == ops,
                Err(e) => r == Err::<BinaryDelta, CompressError>(e),
            },
    {
        if bytes.len() < 9 {
            return Err(CompressError::DeltaTruncated { minimum: 9, actual: bytes.len() });
        }
        let version = bytes[0];
        if version != BINARY_DELTA_VERSION {
            return Err(CompressError::DeltaInvalidVersion(version));
        }
        let original_len = read_u32_le(bytes, 1);
        let target_len = read_u32_le(bytes, 5);
        let mut ops: Vec<DeltaOp> = Vec::new();
        let mut pos: usize = 9;
        while pos < bytes.len()
            invariant
                9 <= pos <= bytes@.len(),
                bytes@[0] == BINARY_DELTA_VERSION,
                version == BINARY_DELTA_VERSION,
                original_len == u32_at(bytes@, 1),
                target_len == u32_at(bytes@, 5),
                parse_ops(bytes@, 9) == match parse_ops(bytes@, pos as int) {
                    Ok(rest) => Ok::<Seq<DeltaOpModel>, CompressError>(op_models(ops@) + rest),
                    Err(e) => Err(e),
                },
            ensures
                parse_ops(bytes@, pos as int) == Ok::<Seq<DeltaOpModel>, CompressError>(
                    Seq::empty(),
                ),
            decreases bytes@.len() - pos,
        {
            let tag = bytes[pos];
            if tag == 0 {
                if bytes.len() - pos < 7 {
                    return Err(
                        CompressError::DeltaTruncated {
                            minimum: pos.saturating_add(7),
                            actual: bytes.len(),
                        },
                    );
                }
                let offset = read_u32_le(bytes, pos + 1);
                let length = read_u16_le(bytes, pos + 5);
                let ghost before = ops@;
                ops.push(DeltaOp::Copy { offset, length: length as u32 });
                proof {
                    assert(op_models(ops@) =~= op_models(before) + seq![
                        DeltaOpModel::Copy { offset, length: length as u32 },
                    ]);
                    match parse_ops(bytes@, pos + 7) {
                        Ok(rest) => {
                            assert(op_models(before) + (seq![DeltaOpModel::Copy { offset, length: length as u32 }] + rest)
                                =~= op_models(ops@) + rest);
                        },
                        Err(_) => {},
                    }
                }
                pos = pos + 7;
            } else if tag == 1 {
                if bytes.len() - pos < 3 {
                    return Err(
                        CompressError::DeltaTruncated {
                            minimum: pos.saturating_add(3),
                            actual: bytes.len(),
                        },
                    );
                }
                let len = read_u16_le(bytes, pos + 1) as usize;
                if bytes.len() - (pos + 3) < len {
                    return Err(
                        CompressError::DeltaTruncated {
                            minimum: pos.saturating_add(3).saturating_add(len),
                            actual: bytes.len(),
                        },
                    );
                }
                let data = copy_range(bytes, pos + 3, pos + 3 + len);
                let ghost before = ops@;
                let ghost d = data@;
                ops.push(DeltaOp::Insert(data));
                proof {
                    assert(op_models(ops@) =~= op_models(before) + seq![DeltaOpModel::Insert(d)]);
                    match parse_ops(bytes@, pos + 3 + len) {
                        Ok(rest) => {
                            assert(op_models(before) + (seq![DeltaOpModel::Insert(d)] + rest)
                                =~= op_models(ops@) + rest);
                        },
                        Err(_) => {},
                    }
                }
                pos = pos + 3 + len;
            } else if tag == 0xFF {
                break;
            } else {
                return Err(CompressError::DeltaInvalidTag(tag));
            }
        }
        proof {
            assert(op_models(ops@) + Seq::<DeltaOpModel>::empty() =~= op_models(ops@));
        }
        Ok(BinaryDelta { version, original_len, target_len, ops })
    }

    /// Whether the wire form is shorter than `target_len`.
    pub fn is_compact_vs(&self, target_len: usize) -> (b: bool)
        ensures
            b == (delta_bytes(*self).len() < target_len),
    {
        let encoded = self.encode_to_bytes();
        encoded.len() < target_len
    }
}

proof fn lemma_apply_ops_err_sticks(ops: Seq<DeltaOpModel>, base: Seq<u8>, k: nat, n: nat)
    requires
        k <= n,
        apply_ops(ops, base, k) is Err,
    ensures
        apply_ops(ops, base, n) == apply_ops(ops, base, k),
    decreases n - k,
{
    if k < n {
        lemma_apply_ops_err_sticks(ops, base, k, (n - 1) as nat);
    }
}


// ---------------------------------------------------------------------------
// Zstd-wrapped deltas and delta chains
// ---------------------------------------------------------------------------

/// The delta's wire form, zstd-compressed.
pub fn delta_compress_with_zstd(delta: &BinaryDelta) -> (r: Result<Vec<u8>, CompressError>)
    ensures
        r is Ok ==> r->Ok_0@ == zstd_frame(delta_bytes(*delta), ZSTD_COMPRESSION_LEVEL)
            && zstd_content(r->Ok_0@) == Some(delta_bytes(*delta)),
        r is Err ==> r->Err_0 is ZstdEncode,
{
    let delta_bytes = delta.encode_to_bytes();
    zstd_compress_raw(delta_bytes.as_slice())
}

/// What reading a zstd-compressed delta gives.
pub open spec fn zstd_delta_spec(s: Seq<u8>) -> Result<(u8, u32, u32, Seq<DeltaOpModel>), CompressError> {
    match zstd_content(s) {
        None => Err(CompressError::ZstdDecode(arbitrary())),
        Some(c) => if c.len() > MAX_DECOMPRESSED_BYTES {
            Err(CompressError::DecompressedTooLarge { actual: c.len() as usize, max: MAX_DECOMPRESSED_BYTES })
        } else {
            parse_delta(c)
        },
    }
}

/// Decompresses and decodes a delta.
pub fn delta_decompress_from_zstd(compressed_delta: &[u8]) -> (r: Result<BinaryDelta, CompressError>)
    ensures
        match zstd_content(compressed_delta@) {
            None => r is Err && r->Err_0 is ZstdDecode,
            Some(c) => if c.len() > MAX_DECOMPRESSED_BYTES {
                r == Err::<BinaryDelta, CompressError>(
                    CompressError::DecompressedTooLarge {
                        actual: c.len() as usize,
                        max: MAX_DECOMPRESSED_BYTES,
                    },
                )
            } else {
                match parse_delta(c) {
                    Ok((version, original_len, target_len, ops)) => r is Ok && r->Ok_0.version
                        == version && r->Ok_0.original_len == original_len && r->Ok_0.target_len
                        == target_len && op_models(r->Ok_0.ops@) == ops,
                    Err(e) => r == Err::<BinaryDelta, CompressError>(e),
                }
            },
        },
{
    let delta_bytes = zstd_decompress_raw(compressed_delta, MAX_DECOMPRESSED_BYTES)?;
    BinaryDelta::decode_from_bytes(delta_bytes.as_slice())
}

/// Applies a chain of deltas in turn.
pub struct DeltaChain;

/// Whether an error is the expected one: of the same kind where the outside
/// crate's message is carried, equal otherwise.
pub open spec fn error_matches(actual: CompressError, expected: CompressError) -> bool {
    match expected {
        CompressError::ZstdDecode(_) => actual is ZstdDecode,
        CompressError::ZstdEncode(_) => actual is ZstdEncode,
        CompressError::ColumnarDecode(_) => actual is ColumnarDecode,
        _ => actual == expected,
    }
}

/// The fields of one step of a chain: a delta, zstd-compressed when flagged.
pub open spec fn chain_step_fields(bytes: Seq<u8>, is_zstd: bool) -> Result<(u8, u32, u32, Seq<DeltaOpModel>), CompressError> {
    if is_zstd {
        zstd_delta_spec(bytes)
    } else {
        parse_delta(bytes)
    }
}

/// The steps of a chain as bytes and flags.
pub open spec fn chain_steps(deltas: Seq<(Vec<u8>, bool)>) -> Seq<(Seq<u8>, bool)> {
    deltas.map_values(|d: (Vec<u8>, bool)| (d.0@, d.1))
}

/// Applying the steps in order to `base`: each step's delta to the result
/// of the ones before, stopping at the first failure.
pub open spec fn chain_spec(base: Seq<u8>, steps: Seq<(Seq<u8>, bool)>) -> Result<Seq<u8>, CompressError>
    decreases steps.len(),
{
    if steps.len() == 0 {
        Ok(base)
    } else {
        match chain_spec(base, steps.drop_last()) {
            Err(e) => Err(e),
            Ok(cur) => match chain_step_fields(steps.last().0, steps.last().1) {
                Err(e) => Err(e),
                Ok(f) => delta_fields_apply(f, cur),
            },
        }
    }
}

proof fn lemma_chain_err_extends(base: Seq<u8>, steps: Seq<(Seq<u8>, bool)>, k: int)
    requires
        0 <= k <= steps.len(),
        chain_spec(base, steps.subrange(0, k)) is Err,
    ensures
        chain_spec(base, steps) == chain_spec(base, steps.subrange(0, k)),
    decreases steps.len() - k,
{
    if k < steps.len() {
        assert(steps.subrange(0, k + 1).drop_last() =~= steps.subrange(0, k));
        lemma_chain_err_extends(base, steps, k + 1);
    } else {
        assert(steps.subrange(0, k) =~= steps);
    }
}

/// Step `i` of a chain carries delta `d`: its wire bytes, or (flagged) a
/// zstd frame of them within the decompression limit.
pub open spec fn step_carries(step: (Seq<u8>, bool), d: BinaryDelta) -> bool {
    if step.1 {
        zstd_content(step.0) == Some(delta_bytes(d)) && delta_bytes(d).len() <= MAX_DECOMPRESSED_BYTES
    } else {
        step.0 == delta_bytes(d)
    }
}

/// Delta `d` rebuilds `target` from `base`, as `BinaryDelta::compute` gives
/// for inputs of at most `u32::MAX` bytes.
pub open spec fn delta_rebuilds(d: BinaryDelta, base: Seq<u8>, target: Seq<u8>) -> bool {
    &&& d.version == BINARY_DELTA_VERSION
    &&& ops_encodable(op_models(d.ops@))
    &&& d.original_len == base.len()
    &&& d.target_len == target.len()
    &&& apply_ops(op_models(d.ops@), base, d.ops@.len()) == Ok::<Seq<u8>, CompressError>(target)
}

/// A chain of deltas between successive versions, each step plain or
/// zstd-compressed, applied to the first version gives the last.
pub proof fn lemma_chain_roundtrip(versions: Seq<Seq<u8>>, deltas: Seq<BinaryDelta>, steps: Seq<(Seq<u8>, bool)>)
    requires
        versions.len() == deltas.len() + 1,
        steps.len() == deltas.len(),
        forall|i: int| 0 <= i < deltas.len() ==> delta_rebuilds(#[trigger] deltas[i], versions[i], versions[i + 1]),
        forall|i: int| 0 <= i < deltas.len() ==> step_carries(#[trigger] steps[i], deltas[i]),
    ensures
        chain_spec(versions[0], steps) == Ok::<Seq<u8>, CompressError>(versions.last()),
    decreases steps.len(),
{
    if steps.len() > 0 {
        let n = steps.len() - 1;
        lemma_chain_roundtrip(versions.drop_last(), deltas.drop_last(), steps.drop_last());
        assert(versions.drop_last().last() == versions[n]);
        let d = deltas[n];
        assert(delta_rebuilds(d, versions[n], versions[n + 1]));
        assert(step_carries(steps[n], d));
        lemma_binary_delta_encoding_roundtrip(d);
        assert(op_models(d.ops@).len() == d.ops@.len());
        assert(chain_step_fields(steps.last().0, steps.last().1) == Ok::<(u8, u32, u32, Seq<DeltaOpModel>), CompressError>(
            (d.version, d.original_len, d.target_len, op_models(d.ops@)),
        ));
    }
}

impl DeltaChain {
    /// Decodes each delta (zstd-compressed where its flag says so) and applies
    /// it to the running result, starting from `base`; stops at the first failure.
    pub fn apply_chain(base: &[u8], deltas: &[(Vec<u8>, bool)]) -> (r: Result<Vec<u8>, CompressError>)
        ensures
            match chain_spec(base@, chain_steps(deltas@)) {
                Ok(out) => r is Ok && r->Ok_0@ == out,
                Err(e) => r is Err && error_matches(r->Err_0, e),
            },
    {
        let ghost steps = chain_steps(deltas@);
        let mut current = copy_range(base, 0, base.len());
        assert(base@.subrange(0, base@.len() as int) =~= base@);
        assert(steps.subrange(0, 0) =~= Seq::<(Seq<u8>, bool)>::empty());
        let mut i: usize = 0;
        while i < deltas.len()
            invariant
                i <= deltas@.len(),
                steps == chain_steps(deltas@),
                chain_spec(base@, steps.subrange(0, i as int)) == Ok::<Seq<u8>, CompressError>(current@),
            decreases deltas@.len() - i,
        {
            let ghost pre = steps.subrange(0, i + 1);
            proof {
                assert(pre.drop_last() =~= steps.subrange(0, i as int));
                assert(pre.last() == (deltas@[i as int].0@, deltas@[i as int].1));
            }
            let (delta_bytes, is_zstd) = &deltas[i];
            let delta = if *is_zstd {
                match delta_decompress_from_zstd(delta_bytes.as_slice()) {
                    Ok(d) => d,
                    Err(e) => {
                        proof {
                            lemma_chain_err_extends(base@, steps, i + 1);
                        }
                        return Err(e);
                    },
                }
            } else {
                match BinaryDelta::decode_from_bytes(delta_bytes.as_slice()) {
                    Ok(d) => d,
                    Err(e) => {
                        proof {
                            lemma_chain_err_extends(base@, steps, i + 1);
                        }
                        return Err(e);
                    },
                }
            };
            let ghost prev = current@;
            proof {
                assert(op_models(delta.ops@).len() == delta.ops@.len());
            }
            current = match delta.apply(current.as_slice()) {
                Ok(c) => c,
                Err(e) => {
                    proof {
                        lemma_chain_err_extends(base@, steps, i + 1);
                    }
                    return Err(e);
                },
            };
            i = i + 1;
        }
        assert(steps.subrange(0, i as int) =~= steps);
        Ok(current)
    }
}

// ---------------------------------------------------------------------------
// XOR delta
// ---------------------------------------------------------------------------

#[derive(Debug, Clone, PartialEq, Eq)]
pub struct XorDelta {
    pub original_len: u32,
    pub target_len: u32,
    /// The positions where base and target differ, with their XOR, in order.
    pub patches: Vec<(u32, u8)>,
}

/// The patches for the first `n` positions: one per position whose bytes differ.
pub open spec fn xor_patches(base: Seq<u8>, target: Seq<u8>, n: nat) -> Seq<(u32, u8)>
    decreases n,
{
    if n == 0 {
        Seq::empty()
    } else {
        let prev = xor_patches(base, target, (n - 1) as nat);
        let x = base[n - 1] ^ target[n - 1];
        if x != 0 {
            prev.push(((n - 1) as u32, x))
        } else {
            prev
        }
    }
}

/// The bytes after applying the patches in order, or the first out-of-range patch.
pub open spec fn xor_fold(patches: Seq<(u32, u8)>, base: Seq<u8>) -> Result<Seq<u8>, CompressError>
    decreases patches.len(),
{
    if patches.len() == 0 {
        Ok(base)
    } else {
        match xor_fold(patches.drop_last(), base) {
            Err(e) => Err(e),
            Ok(s) => {
                let (off, x) = patches.last();
                if off >= s.len() {
                    Err(CompressError::DeltaCopyOutOfBounds { offset: off, length: 1, base_len: s.len() as usize })
                } else {
                    Ok(s.update(off as int, s[off as int] ^ x))
                }
            },
        }
    }
}

/// Folding the first `n` patches of base against target into the base gives
/// the target's first `n` bytes followed by the rest of the base.
proof fn lemma_xor_fold_prefix(base: Seq<u8>, target: Seq<u8>, n: nat)
    requires
        base.len() == target.len(),
        base.len() <= u32::MAX,
        n <= base.len(),
    ensures
        xor_fold(xor_patches(base, target, n), base) == Ok::<Seq<u8>, CompressError>(
            target.take(n as int) + base.skip(n as int),
        ),
    decreases n,
{
    if n == 0 {
        assert(target.take(0) + base.skip(0) =~= base);
    } else {
        let k = (n - 1) as nat;
        lemma_xor_fold_prefix(base, target, k);
        let s = target.take(k as int) + base.skip(k as int);
        let b = base[k as int];
        let t = target[k as int];
        let x = b ^ t;
        assert(s[k as int] == b);
        let goal = target.take(n as int) + base.skip(n as int);
        if x != 0 {
            let ps = xor_patches(base, target, n);
            assert(ps.drop_last() == xor_patches(base, target, k));
            assert(ps.last() == ((n - 1) as u32, x));
            assert(((n - 1) as u32) as int == k);
            assert(b ^ x == t) by (bit_vector)
                requires
                    x == b ^ t;
            assert(s.update(k as int, s[k as int] ^ x) =~= goal);
        } else {
            assert(b == t) by (bit_vector)
                requires
                    x == b ^ t,
                    x == 0;
            assert(s =~= goal);
        }
    }
}

/// Applying the patches computed from a base and a target of the same
/// length to that base gives the target.
pub proof fn lemma_xor_delta_roundtrip(base: Seq<u8>, target: Seq<u8>)
    requires
        base.len() == target.len(),
        base.len() <= u32::MAX,
    ensures
        xor_fold(xor_patches(base, target, base.len()), base) == Ok::<Seq<u8>, CompressError>(target),
{
    lemma_xor_fold_prefix(base, target, base.len());
    assert(target.take(base.len() as int) + base.skip(base.len() as int) =~= target);
}

/// The wire bytes of the patches.
pub open spec fn patches_bytes(patches: Seq<(u32, u8)>) -> Seq<u8>
    decreases patches.len(),
{
    if patches.len() == 0 {
        Seq::empty()
    } else {
        patches_bytes(patches.drop_last()) + u32_le(patches.last().0) + seq![patches.last().1]
    }
}

/// The wire bytes of an XOR delta.
pub open spec fn xor_delta_bytes(d: XorDelta) -> Seq<u8> {
    u32_le(d.original_len) + u32_le(d.target_len) + u16_le(d.patches@.len() as u16) + patches_bytes(
        d.patches@,
    )
}

/// The first `n` patches stored from offset 10 of `s`.
pub open spec fn parse_patches(s: Seq<u8>, n: nat) -> Seq<(u32, u8)>
    decreases n,
{
    if n == 0 {
        Seq::empty()
    } else {
        parse_patches(s, (n - 1) as nat).push((u32_at(s, 10 + 5 * (n - 1)), s[10 + 5 * (n - 1) + 4]))
    }
}

/// What decoding an XOR delta from `s` gives.
pub open spec fn parse_xor_delta(s: Seq<u8>) -> Result<(u32, u32, Seq<(u32, u8)>), CompressError> {
    if s.len() < 10 {
        Err(CompressError::DeltaTruncated { minimum: 10, actual: s.len() as usize })
    } else if s.len() < 10 + 5 * u16_at(s, 8) {
        Err(CompressError::DeltaTruncated { minimum: (10 + 5 * u16_at(s, 8)) as usize, actual: s.len() as usize })
    } else {
        Ok((u32_at(s, 0), u32_at(s, 4), parse_patches(s, u16_at(s, 8) as nat)))
    }
}

/// The patches take five bytes each.
proof fn lemma_patches_bytes_len(p: Seq<(u32, u8)>)
    ensures
        patches_bytes(p).len() == 5 * p.len(),
    decreases p.len(),
{
    if p.len() > 0 {
        lemma_patches_bytes_len(p.drop_last());
    }
}

/// Patches written from offset 10 of `s` read back as written.
proof fn lemma_parse_patches(s: Seq<u8>, p: Seq<(u32, u8)>)
    requires
        10 + 5 * p.len() <= s.len(),
        s.subrange(10, 10 + 5 * p.len() as int) == patches_bytes(p),
    ensures
        parse_patches(s, p.len()) == p,
    decreases p.len(),
{
    if p.len() > 0 {
        let q = p.drop_last();
        let n: int = q.len() as int;
        lemma_patches_bytes_len(q);
        let whole = s.subrange(10, 10 + 5 * p.len() as int);
        assert(patches_bytes(p) == patches_bytes(q) + u32_le(p.last().0) + seq![p.last().1]);
        assert(s.subrange(10, 10 + 5 * n) =~= whole.subrange(0, 5 * n));
        assert(patches_bytes(p).subrange(0, 5 * n) =~= patches_bytes(q));
        lemma_parse_patches(s, q);
        let pos = 10 + 5 * n;
        assert(s.subrange(pos, pos + 4) =~= u32_le(p.last().0)) by {
            assert forall|i: int| 0 <= i < 4 implies s.subrange(pos, pos + 4)[i] == u32_le(p.last().0)[i] by {
                assert(s[pos + i] == whole[5 * n + i]);
                assert(patches_bytes(p)[5 * n + i] == u32_le(p.last().0)[i]);
            }
        }
        lemma_u32_le_roundtrip(p.last().0, s, pos);
        assert(s[pos + 4] == whole[5 * n + 4]);
        assert(patches_bytes(p)[5 * n + 4] == p.last().1);
        assert(parse_patches(s, p.len()) =~= p);
    }
}

/// Reading back the wire form of an XOR delta with at most 65535 patches
/// gives its lengths and patches; the wire form is 10 bytes plus five per
/// patch.
pub proof fn lemma_xor_delta_encoding_roundtrip(d: XorDelta)
    requires
        d.patches@.len() <= 65535,
    ensures
        xor_delta_bytes(d).len() == 10 + 5 * d.patches@.len(),
        parse_xor_delta(xor_delta_bytes(d)) == Ok::<(u32, u32, Seq<(u32, u8)>), CompressError>(
            (d.original_len, d.target_len, d.patches@),
        ),
{
    let s = xor_delta_bytes(d);
    let n: int = d.patches@.len() as int;
    lemma_patches_bytes_len(d.patches@);
    assert(s.subrange(0, 4) =~= u32_le(d.original_len));
    lemma_u32_le_roundtrip(d.original_len, s, 0);
    assert(s.subrange(4, 8) =~= u32_le(d.target_len));
    lemma_u32_le_roundtrip(d.target_len, s, 4);
    assert(s.subrange(8, 10) =~= u16_le(n as u16));
    lemma_u16_le_roundtrip(n as u16, s, 8);
    assert(s.subrange(10, 10 + 5 * n) =~= patches_bytes(d.patches@));
    lemma_parse_patches(s, d.patches@);
}

impl XorDelta {
    /// The XOR delta between two byte strings of equal length.
    pub fn compute(base: &[u8], target: &[u8]) -> (r: Result<XorDelta, CompressError>)
        ensures
            base@.len() != target@.len() ==> r == Err::<XorDelta, CompressError>(
                CompressError::DeltaBaseLengthMismatch {
                    expected: base@.len() as usize,
                    actual: target@.len() as usize,
                },
            ),
            base@.len() == target@.len() ==> r is Ok && r->Ok_0.original_len
                == #[verifier::truncate] (base@.len() as u32) && r->Ok_0.target_len
                == #[verifier::truncate] (target@.len() as u32)
                && r->Ok_0.patches@ == xor_patches(base@, target@, base@.len()),
    {
        if base.len() != target.len() {
            return Err(
                CompressError::DeltaBaseLengthMismatch { expected: base.len(), actual: target.len() },
            );
        }
        let mut patches: Vec<(u32, u8)> = Vec::new();
        let mut i: usize = 0;
        while i < base.len()
            invariant
                i <= base@.len(),
                base@.len() == target@.len(),
                patches@ == xor_patches(base@, target@, i as nat),
            decreases base@.len() - i,
        {
            let x = base[i] ^ target[i];
            if x != 0 {
                patches.push((#[verifier::truncate] (i as u32), x));
            }
            i = i + 1;
        }
        Ok(
            XorDelta {
                original_len: #[verifier::truncate] (base.len() as u32),
                target_len: #[verifier::truncate] (target.len() as u32),
                patches,
            },
        )
    }

    /// Applies the patches to a copy of `base`.
    pub fn apply(&self, base: &[u8]) -> (r: Result<Vec<u8>, CompressError>)
        ensures
            base@.len() != self.original_len ==> r == Err::<Vec<u8>, CompressError>(
                CompressError::DeltaBaseLengthMismatch {
                    expected: self.original_len as usize,
                    actual: base@.len() as usize,
                },
            ),
            base@.len() == self.original_len ==> match xor_fold(self.patches@, base@) {
                Ok(out) => r is Ok && r->Ok_0@ == out,
                Err(e) => r == Err::<Vec<u8>, CompressError>(e),
            },
    {
        if base.len() != self.original_len as usize {
            return Err(
                CompressError::DeltaBaseLengthMismatch {
                    expected: self.original_len as usize,
                    actual: base.len(),
                },
            );
        }
        let mut result = copy_range(base, 0, base.len());
        assert(result@ =~= base@);
        let mut i: usize = 0;
        while i < self.patches.len()
            invariant
                i <= self.patches@.len(),
                base@.len() == self.original_len,
                xor_fold(self.patches@.subrange(0, i as int), base@) == Ok::<Seq<u8>, CompressError>(
                    result@,
                ),
            decreases self.patches@.len() - i,
        {
            let (offset, xor_byte) = self.patches[i];
            proof {
                assert(self.patches@.subrange(0, i + 1).drop_last() =~= self.patches@.subrange(
                    0,
                    i as int,
                ));
            }
            if offset as usize >= result.len() {
                proof {
                    lemma_xor_fold_err_sticks(self.patches@, base@, (i + 1) as nat);
                    assert(self.patches@.subrange(0, self.patches@.len() as int) =~= self.patches@);
                }
                return Err(
                    CompressError::DeltaCopyOutOfBounds {
                        offset,
                        length: 1,
                        base_len: result.len(),
                    },
                );
            }
            let idx = offset as usize;
            let v = result[idx] ^ xor_byte;
            result.set(idx, v);
            i = i + 1;
        }
        assert(self.patches@.subrange(0, i as int) =~= self.patches@);
        Ok(result)
    }

    /// The compact wire form: both lengths, the patch count and the patches.
    pub fn encode_to_bytes(&self) -> (out: Vec<u8>)
        ensures
            out@ == xor_delta_bytes(*self),
    {
        let mut out: Vec<u8> = Vec::new();
        push_u32_le(&mut out, self.original_len);
        push_u32_le(&mut out, self.target_len);
        push_u16_le(&mut out, #[verifier::truncate] (self.patches.len() as u16));
        let ghost head = out@;
        assert(head =~= u32_le(self.original_len) + u32_le(self.target_len) + u16_le(
            self.patches@.len() as u16,
        ));
        let mut i: usize = 0;
        while i < self.patches.len()
            invariant
                i <= self.patches@.len(),
                out@ == head + patches_bytes(self.patches@.subrange(0, i as int)),
            decreases self.patches@.len() - i,
        {
            let (offset, xor_byte) = self.patches[i];
            push_u32_le(&mut out, offset);
            out.push(xor_byte);
            proof {
                let sub = self.patches@.subrange(0, i + 1);
                assert(sub.drop_last() =~= self.patches@.subrange(0, i as int));
                assert(out@ =~= head + patches_bytes(sub));
            }
            i = i + 1;
        }
        assert(self.patches@.subrange(0, i as int) =~= self.patches@);
        out
    }

    /// Reads an XOR delta back from its wire form; bytes after the patches are ignored.
    pub fn decode_from_bytes(bytes: &[u8]) -> (r: Result<XorDelta, CompressError>)
        ensures
            match parse_xor_delta(bytes@) {
                Ok((original_len, target_len, patches)) => r is Ok && r->Ok_0.original_len
                    == original_len && r->Ok_0.target_len == target_len && r->Ok_0.patches@
                    == patches,
                Err(e) => r == Err::<XorDelta, CompressError>(e),
            },
    {
        if bytes.len() < 10 {
            return Err(CompressError::DeltaTruncated { minimum: 10, actual: bytes.len() });
        }
        let original_len = read_u32_le(bytes, 0);
        let target_len = read_u32_le(bytes, 4);
        let patch_count = read_u16_le(bytes, 8) as usize;
        if bytes.len() < 10 + patch_count * 5 {
            return Err(
                CompressError::DeltaTruncated { minimum: 10 + patch_count * 5, actual: bytes.len() },
            );
        }
        let mut patches: Vec<(u32, u8)> = Vec::new();
        let mut i: usize = 0;
        let blen = bytes.len();
        while i < patch_count
            invariant
                i <= patch_count,
                blen == bytes@.len(),
                10 + patch_count * 5 <= blen,
                patches@ == parse_patches(bytes@, i as nat),
            decreases patch_count - i,
        {
            let pos: usize = 10 + 5 * i;
            let offset = read_u32_le(bytes, pos);
            let xor_byte = bytes[pos + 4];
            patches.push((offset, xor_byte));
            i = i + 1;
        }
        Ok(XorDelta { original_len, target_len, patches })
    }

    /// Whether the wire form is shorter than `target_len`.
    pub fn is_compact_vs(&self, target_len: usize) -> (b: bool)
        ensures
            b == (xor_delta_bytes(*self).len() < target_len),
    {
        let encoded = self.encode_to_bytes();
        encoded.len() < target_len
    }
}

proof fn lemma_xor_fold_err_sticks(patches: Seq<(u32, u8)>, base: Seq<u8>, k: nat)
    requires
        k <= patches.len(),
        xor_fold(patches.subrange(0, k as int), base) is Err,
    ensures
        xor_fold(patches, base) == xor_fold(patches.subrange(0, k as int), base),
    decreases patches.len() - k,
{
    if k < patches.len() {
        let next = patches.subrange(0, k as int + 1);
        assert(next.drop_last() =~= patches.subrange(0, k as int));
        lemma_xor_fold_err_sticks(patches, base, k + 1);
    } else {
        assert(patches.subrange(0, k as int) =~= patches);
    }
}


// ---------------------------------------------------------------------------
// Varints
// ---------------------------------------------------------------------------

/// The LEB128 bytes of `v`: seven bits per byte, low bits first, the high bit
/// set on every byte but the last.
pub open spec fn varint_bytes(v: u32) -> Seq<u8>
    decreases v,
{
    if v < 0x80 {
        seq![v as u8]
    } else {
        proof {
            assert(v >= 0x80 ==> v >> 7u32 < v) by (bit_vector);
        }
        seq![((v & 0x7f) | 0x80) as u8] + varint_bytes(v >> 7u32)
    }
}

/// Reading a varint at `start + k` with `acc` holding the bits of its first
/// `k` bytes: the value and the byte count, or why it cannot be read.
pub open spec fn varint_parse(s: Seq<u8>, start: int, k: nat, acc: u32) -> Result<(u32, nat), CompressError>
    decreases 5 - k,
{
    if k >= 5 || start + k >= s.len() || start < 0 {
        Err(CompressError::ColumnarDecode(arbitrary()))
    } else {
        let b = s[start + k];
        let acc2 = acc | (((b & 0x7f) as u32) << ((7 * k) as u32));
        if b & 0x80 == 0 {
            Ok((acc2, k + 1))
        } else if 7 * (k + 1) >= 35 {
            Err(CompressError::ColumnarDecode(arbitrary()))
        } else {
            varint_parse(s, start, k + 1, acc2)
        }
    }
}

fn encode_varint_u32(value: u32, out: &mut Vec<u8>)
    ensures
        final(out)@ == old(out)@ + varint_bytes(value),
    decreases value,
{
    if value < 0x80 {
        out.push(value as u8);
        assert(final(out)@ =~= old(out)@ + varint_bytes(value));
    } else {
        out.push(((value & 0x7f) | 0x80) as u8);
        assert(value >= 0x80 ==> value >> 7u32 < value) by (bit_vector);
        let ghost mid = out@;
        encode_varint_u32(value >> 7, out);
        assert(out@ =~= old(out)@ + varint_bytes(value));
    }
}

fn decode_varint_u32(data: &[u8], start: usize) -> (r: Result<(u32, usize), CompressError>)
    ensures
        match varint_parse(data@, start as int, 0, 0) {
            Ok((v, n)) => r is Ok && r->Ok_0.0 == v && r->Ok_0.1 == n,
            Err(_) => r is Err && r->Err_0 is ColumnarDecode,
        },
{
    let mut value: u32 = 0;
    let mut shift: u32 = 0;
    let mut k: usize = 0;
    loop
        invariant
            k < 5,
            shift == 7 * k,
            varint_parse(data@, start as int, 0, 0) == varint_parse(data@, start as int, k as nat, value),
        decreases 5 - k,
    {
        if start >= data.len() || data.len() - start <= k {
            return Err(CompressError::ColumnarDecode(String::new()));
        }
        let byte = data[start + k];
        value = value | (((byte & 0x7f) as u32) << shift);
        if byte & 0x80 == 0 {
            return Ok((value, k + 1));
        }
        shift = shift + 7;
        if shift >= 35 {
            return Err(CompressError::ColumnarDecode(String::new()));
        }
        k = k + 1;
    }
}

// ---------------------------------------------------------------------------
// Columnar encoding
// ---------------------------------------------------------------------------

#[derive(Debug, Clone, Copy, PartialEq, Eq, Structural)]
pub enum ColumnKind {
    SourceKind,
    PayloadLen,
    PayloadData,
    ItemId,
    SchemaId,
}

#[derive(Debug, Clone, Copy, PartialEq, Eq, Structural)]
pub enum ColumnEncoding {
    Raw,
    Rle,
    DeltaU32,
    Zstd,
}

#[derive(Debug, Clone, PartialEq, Eq)]
pub struct ColumnarColumn {
    pub kind: ColumnKind,
    pub encoding: ColumnEncoding,
    pub data: Vec<u8>,
}

/// `b` repeated `n` times.
pub open spec fn repeat(b: u8, n: nat) -> Seq<u8> {
    Seq::new(n, |_i: int| b)
}

/// The bytes the first `n` five-byte (byte, count) pairs of `enc` stand for.
pub open spec fn rle_expand(enc: Seq<u8>, n: nat) -> Seq<u8>
    decreases n,
{
    if n == 0 {
        Seq::empty()
    } else {
        rle_expand(enc, (n - 1) as nat) + repeat(enc[5 * (n - 1)], u32_at(enc, 5 * (n - 1) + 1) as nat)
    }
}

/// Run-length encodes bytes as (byte, little-endian u32 count) pairs.
fn rle_encode(data: &[u8], kind: ColumnKind) -> (c: ColumnarColumn)
    ensures
        c.kind == kind,
        c.encoding == ColumnEncoding::Rle,
        c.data@.len() % 5 == 0,
        rle_expand(c.data@, c.data@.len() / 5) == data@,
{
    let mut encoded: Vec<u8> = Vec::new();
    if data.len() == 0 {
        return ColumnarColumn { kind, encoding: ColumnEncoding::Rle, data: encoded };
    }
    let mut current: u8 = data[0];
    let mut count: u32 = 1;
    let mut i: usize = 1;
    while i < data.len()
        invariant
            1 <= i <= data@.len(),
            count >= 1,
            count <= i,
            encoded@.len() % 5 == 0,
            rle_expand(encoded@, encoded@.len() / 5) + repeat(current, count as nat)
                == data@.subrange(0, i as int),
        decreases data@.len() - i,
    {
        let byte = data[i];
        if byte == current && count < u32::MAX {
            count = count + 1;
            proof {
                assert(repeat(current, count as nat) =~= repeat(current, (count - 1) as nat).push(byte));
                assert(data@.subrange(0, i + 1) =~= data@.subrange(0, i as int).push(byte));
            }
        } else {
            let ghost before = encoded@;
            encoded.push(current);
            push_u32_le(&mut encoded, count);
            proof {
                assert(encoded@ =~= before + seq![current] + u32_le(count));
                lemma_rle_push_pair(before, current, count);
                assert(data@.subrange(0, i + 1) =~= data@.subrange(0, i as int).push(byte));
                assert(repeat(byte, 1) =~= seq![byte]);
                assert(rle_expand(encoded@, encoded@.len() / 5) + repeat(byte, 1) =~= (rle_expand(
                    before,
                    before.len() / 5,
                ) + repeat(current, count as nat)).push(byte));
            }
            current = byte;
            count = 1;
        }
        i = i + 1;
    }
    let ghost before = encoded@;
    encoded.push(current);
    push_u32_le(&mut encoded, count);
    proof {
        assert(encoded@ =~= before + seq![current] + u32_le(count));
        lemma_rle_push_pair(before, current, count);
        assert(data@.subrange(0, i as int) =~= data@);
    }
    ColumnarColumn { kind, encoding: ColumnEncoding::Rle, data: encoded }
}

proof fn lemma_rle_expand_prefix(a: Seq<u8>, b: Seq<u8>, n: nat)
    requires
        5 * n <= a.len(),
        5 * n <= b.len(),
        forall|j: int| 0 <= j < 5 * n ==> a[j] == b[j],
    ensures
        rle_expand(a, n) == rle_expand(b, n),
    decreases n,
{
    if n > 0 {
        let m = (n - 1) as nat;
        lemma_rle_expand_prefix(a, b, m);
        let q = 5 * (m as int);
        assert(a[q] == b[q]);
        assert(a[q + 1] == b[q + 1]);
        assert(a[q + 2] == b[q + 2]);
        assert(a[q + 3] == b[q + 3]);
        assert(a[q + 4] == b[q + 4]);
        assert(u32_at(a, q + 1) == u32_at(b, q + 1));
    }
}

proof fn lemma_rle_push_pair(before: Seq<u8>, byte: u8, count: u32)
    requires
        before.len() % 5 == 0,
    ensures
        ({
            let after = before + seq![byte] + u32_le(count);
            &&& after.len() % 5 == 0
            &&& after.len() / 5 == before.len() / 5 + 1
            &&& rle_expand(after, after.len() / 5) == rle_expand(before, before.len() / 5) + repeat(
                byte,
                count as nat,
            )
        }),
{
    let after = before + seq![byte] + u32_le(count);
    let n = before.len() / 5;
    assert(after.len() == before.len() + 5);
    assert(after.len() / 5 == n + 1);
    assert(after.subrange(0, 5 * (n as int)) =~= before.subrange(0, 5 * (n as int)));
    assert(before.subrange(0, 5 * (n as int)) =~= before);
    lemma_rle_expand_prefix(after, before, n);
    assert(after[5 * (n as int)] == byte);
    assert(after.subrange(5 * (n as int) + 1, 5 * (n as int) + 5) =~= u32_le(count));
    lemma_u32_le_roundtrip(count, after, 5 * (n as int) + 1);
}

/// Expands (byte, count) pairs; a trailing group shorter than five bytes is ignored.
fn rle_decode(column: &ColumnarColumn) -> (r: Result<Vec<u8>, CompressError>)
    ensures
        r is Ok && r->Ok_0@ == rle_expand(column.data@, column.data@.len() / 5),
{
    let data = &column.data;
    let mut result: Vec<u8> = Vec::new();
    let mut pair: usize = 0;
    let dlen = data.len();
    let n = dlen / 5;
    while pair < n
        invariant
            pair <= n,
            dlen == data@.len(),
            data@ == column.data@,
            n == dlen / 5,
            result@ == rle_expand(data@, pair as nat),
        decreases n - pair,
    {
        let pos = 5 * pair;
        let byte = data[pos];
        let count = read_u32_le(data.as_slice(), pos + 1);
        let ghost before = result@;
        let mut j: u32 = 0;
        while j < count
            invariant
                j <= count,
                result@ == before + repeat(byte, j as nat),
            decreases count - j,
        {
            result.push(byte);
            j = j + 1;
            assert(result@ =~= before + repeat(byte, j as nat));
        }
        pair = pair + 1;
    }
    Ok(result)
}

/// The deltas between consecutive values, as varints.
pub open spec fn delta_varints(values: Seq<u32>, n: nat) -> Seq<u8>
    decreases n,
{
    if n <= 1 {
        Seq::empty()
    } else {
        delta_varints(values, (n - 1) as nat) + varint_bytes(
            vstd::wrapping::u32_specs::wrapping_sub(values[n - 1], values[n - 2]),
        )
    }
}

/// Stores the first value in four bytes, then each later value as the
/// varint of its wrapping difference from the one before.
fn delta_u32_encode(values: &[u32], kind: ColumnKind) -> (c: ColumnarColumn)
    ensures
        c.kind == kind,
        c.encoding == ColumnEncoding::DeltaU32,
        values@.len() == 0 ==> c.data@.len() == 0,
        values@.len() > 0 ==> c.data@ == u32_le(values@[0]) + delta_varints(values@, values@.len()),
{
    let mut encoded: Vec<u8> = Vec::new();
    if values.len() == 0 {
        return ColumnarColumn { kind, encoding: ColumnEncoding::DeltaU32, data: encoded };
    }
    push_u32_le(&mut encoded, values[0]);
    assert(encoded@ =~= u32_le(values@[0]) + delta_varints(values@, 1));
    let mut i: usize = 1;
    while i < values.len()
        invariant
            1 <= i <= values@.len(),
            encoded@ == u32_le(values@[0]) + delta_varints(values@, i as nat),
        decreases values@.len() - i,
    {
        let delta = values[i].wrapping_sub(values[i - 1]);
        encode_varint_u32(delta, &mut encoded);
        i = i + 1;
        assert(encoded@ =~= u32_le(values@[0]) + delta_varints(values@, i as nat));
    }
    ColumnarColumn { kind, encoding: ColumnEncoding::DeltaU32, data: encoded }
}

/// The values of a delta-encoded column from byte `pos` on, each the one
/// before (`cur` for the first) plus the next varint, wrapping.
pub open spec fn delta_values_from(s: Seq<u8>, pos: int, cur: u32) -> Result<Seq<u32>, CompressError>
    decreases s.len() - pos,
{
    if pos < 0 || pos >= s.len() {
        Ok(Seq::empty())
    } else {
        match varint_parse(s, pos, 0, 0) {
            Err(e) => Err(e),
            Ok((d, n)) => {
                proof {
                    lemma_varint_parse_bounds(s, pos, 0, 0);
                }
                let next = vstd::wrapping::u32_specs::wrapping_add(cur, d);
                match delta_values_from(s, pos + n, next) {
                    Err(e) => Err(e),
                    Ok(rest) => Ok(seq![next] + rest),
                }
            },
        }
    }
}

/// The values of a delta-encoded column: none for fewer than four bytes,
/// else the first value (four bytes) and the rebuilt ones after it.
pub open spec fn delta_column_values(s: Seq<u8>) -> Result<Seq<u32>, CompressError> {
    if s.len() < 4 {
        Ok(Seq::empty())
    } else {
        match delta_values_from(s, 4, u32_at(s, 0)) {
            Err(e) => Err(e),
            Ok(rest) => Ok(seq![u32_at(s, 0)] + rest),
        }
    }
}

/// Reads a delta-encoded column: the first value, then values rebuilt by
/// adding each decoded varint to the one before.
fn delta_u32_decode(column: &ColumnarColumn) -> (r: Result<Vec<u32>, CompressError>)
    ensures
        match delta_column_values(column.data@) {
            Ok(vs) => r is Ok && r->Ok_0@ == vs,
            Err(e) => r is Err && error_matches(r->Err_0, e),
        },
{
    let data = &column.data;
    let mut values: Vec<u32> = Vec::new();
    if data.len() < 4 {
        return Ok(values);
    }
    let first = read_u32_le(data.as_slice(), 0);
    values.push(first);
    let mut pos: usize = 4;
    let mut current: u32 = first;
    while pos < data.len()
        invariant
            4 <= pos <= data@.len(),
            data@ == column.data@,
            first == u32_at(data@, 0),
            match delta_values_from(data@, pos as int, current) {
                Ok(rest) => delta_column_values(data@) == Ok::<Seq<u32>, CompressError>(values@ + rest),
                Err(e) => delta_column_values(data@) == Err::<Seq<u32>, CompressError>(e),
            },
        decreases data@.len() - pos,
    {
        proof {
            lemma_varint_parse_bounds(data@, pos as int, 0, 0);
        }
        let (delta, consumed) = match decode_varint_u32(data.as_slice(), pos) {
            Ok(x) => x,
            Err(e) => {
                proof {
                    lemma_varint_parse_err(data@, pos as int, 0, 0);
                }
                return Err(e);
            },
        };
        let ghost old_values = values@;
        pos = pos + consumed;
        current = current.wrapping_add(delta);
        values.push(current);
        proof {
            match delta_values_from(data@, pos as int, current) {
                Ok(rest) => {
                    assert(old_values + (seq![current] + rest) =~= values@ + rest);
                },
                Err(e) => {},
            }
        }
    }
    proof {
        assert(delta_values_from(data@, pos as int, current) == Ok::<Seq<u32>, CompressError>(Seq::empty()));
        assert(values@ + Seq::<u32>::empty() =~= values@);
    }
    Ok(values)
}

proof fn lemma_varint_bits_last(acc: u32, w: u32, sh: u32)
    by (bit_vector)
    requires
        sh == 0 || sh == 7 || sh == 14 || sh == 21 || sh == 28,
        acc >> sh == 0,
        w < 0x80,
        (w as u64) << (sh as u64) < 0x1_0000_0000u64,
    ensures
        (acc | ((((w as u8) & 0x7f) as u32) << sh)) == acc | (w << sh),
        (w as u8) & 0x80 == 0,
{
}

proof fn lemma_varint_bits_step(acc: u32, w: u32, sh: u32)
    by (bit_vector)
    requires
        sh == 0 || sh == 7 || sh == 14 || sh == 21 || sh == 28,
        acc >> sh == 0,
        w >= 0x80,
        (w as u64) << (sh as u64) < 0x1_0000_0000u64,
    ensures
        sh == 0 || sh == 7 || sh == 14 || sh == 21,
        ((((w & 0x7f) | 0x80) as u8) & 0x80) != 0,
        (acc | (((((((w & 0x7f) | 0x80) as u8) & 0x7f) as u32) << sh))) >> ((sh + 7) as u32) == 0,
        ((w >> 7u32) as u64) << ((sh + 7) as u64) < 0x1_0000_0000u64,
        (acc | (((((((w & 0x7f) | 0x80) as u8) & 0x7f) as u32) << sh))) | ((w >> 7u32) << ((sh + 7) as u32))
            == acc | (w << sh),
{
}

/// The varint of `w`, written at `start + k` after `k` bytes whose bits are
/// `acc`, reads back as `acc` with `w` above those bits.
pub proof fn lemma_varint_parse_written(s: Seq<u8>, start: int, k: nat, acc: u32, w: u32)
    requires
        0 <= start,
        k <= 4,
        start + k + varint_bytes(w).len() <= s.len(),
        s.subrange(start + k, start + k + varint_bytes(w).len()) == varint_bytes(w),
        acc >> ((7 * k) as u32) == 0,
        (w as u64) << ((7 * k) as u64) < 0x1_0000_0000u64,
    ensures
        varint_parse(s, start, k, acc) == Ok::<(u32, nat), CompressError>(
            (acc | (w << ((7 * k) as u32)), k + varint_bytes(w).len()),
        ),
    decreases w,
{
    let sh = (7 * k) as u32;
    assert(sh == 0 || sh == 7 || sh == 14 || sh == 21 || sh == 28);
    let b = s[start + k];
    assert(b == s.subrange(start + k, start + k + varint_bytes(w).len())[0]);
    if w < 0x80 {
        assert(varint_bytes(w) == seq![w as u8]);
        lemma_varint_bits_last(acc, w, sh);
    } else {
        lemma_varint_bits_step(acc, w, sh);
        assert(w >= 0x80 ==> w >> 7u32 < w) by (bit_vector);
        let rest = varint_bytes(w >> 7u32);
        assert(varint_bytes(w) == seq![((w & 0x7f) | 0x80) as u8] + rest);
        let acc2 = acc | (((b & 0x7f) as u32) << sh);
        assert(s.subrange(start + k + 1, start + k + 1 + rest.len()) =~= rest) by {
            assert forall|j: int| 0 <= j < rest.len() implies #[trigger] s.subrange(start + k + 1, start + k + 1 + rest.len())[j] == rest[j] by {
                assert(s.subrange(start + k, start + k + varint_bytes(w).len())[1 + j] == varint_bytes(w)[1 + j]);
            }
        }
        assert((7 * (k + 1)) as u32 == sh + 7);
        lemma_varint_parse_written(s, start, k + 1, acc2, w >> 7u32);
    }
}

/// A varint that does not read is refused as a columnar decode error.
pub proof fn lemma_varint_parse_err(s: Seq<u8>, start: int, k: nat, acc: u32)
    ensures
        varint_parse(s, start, k, acc) matches Err(e) ==> e is ColumnarDecode,
    decreases 5 - k,
{
    if !(k >= 5 || start + k >= s.len() || start < 0) {
        let b = s[start + k];
        let acc2 = acc | (((b & 0x7f) as u32) << ((7 * k) as u32));
        if b & 0x80 != 0 && 7 * (k + 1) < 35 {
            lemma_varint_parse_err(s, start, k + 1, acc2);
        }
    }
}

/// A varint that reads takes at least one byte more than it started with, within the bytes.
pub proof fn lemma_varint_parse_bounds(s: Seq<u8>, start: int, k: nat, acc: u32)
    ensures
        varint_parse(s, start, k, acc) matches Ok((_, n)) ==> k < n && start + n <= s.len(),
    decreases 5 - k,
{
    if !(k >= 5 || start + k >= s.len() || start < 0) {
        let b = s[start + k];
        let acc2 = acc | (((b & 0x7f) as u32) << ((7 * k) as u32));
        if b & 0x80 != 0 && 7 * (k + 1) < 35 {
            lemma_varint_parse_bounds(s, start, k + 1, acc2);
        }
    }
}


// ---------------------------------------------------------------------------
// Slot values
// ---------------------------------------------------------------------------

/// The bytes of slot values: a count byte, then each value behind its
/// two-byte length (both truncated to their field).
pub open spec fn slot_values_bytes(values: Seq<Seq<u8>>) -> Seq<u8> {
    seq![values.len() as u8] + slot_entries_bytes(values)
}

pub open spec fn slot_entries_bytes(values: Seq<Seq<u8>>) -> Seq<u8>
    decreases values.len(),
{
    if values.len() == 0 {
        Seq::empty()
    } else {
        slot_entries_bytes(values.drop_last()) + u16_le(values.last().len() as u16) + values.last()
    }
}

/// Reading `n` slot values from offset `pos` of `s`.
pub open spec fn parse_slot_values(s: Seq<u8>, pos: int, n: nat) -> Option<Seq<Seq<u8>>>
    decreases n,
{
    if n == 0 {
        Some(Seq::empty())
    } else if pos < 0 || pos + 2 > s.len() {
        None
    } else if pos + 2 + u16_at(s, pos) > s.len() {
        None
    } else {
        match parse_slot_values(s, pos + 2 + u16_at(s, pos), (n - 1) as nat) {
            None => None,
            Some(rest) => Some(seq![s.subrange(pos + 2, pos + 2 + u16_at(s, pos))] + rest),
        }
    }
}

proof fn lemma_entries_front(vs: Seq<Seq<u8>>)
    requires
        vs.len() > 0,
    ensures
        slot_entries_bytes(vs) == u16_le(vs[0].len() as u16) + vs[0] + slot_entries_bytes(vs.drop_first()),
    decreases vs.len(),
{
    if vs.len() == 1 {
        assert(vs.drop_last() =~= Seq::<Seq<u8>>::empty());
        assert(vs.drop_first() =~= Seq::<Seq<u8>>::empty());
        assert(slot_entries_bytes(vs) =~= u16_le(vs[0].len() as u16) + vs[0] + slot_entries_bytes(vs.drop_first()));
    } else {
        let d = vs.drop_last();
        lemma_entries_front(d);
        assert(d[0] == vs[0]);
        assert(d.drop_first() =~= vs.drop_first().drop_last());
        assert(vs.drop_first().last() == vs.last());
        assert(slot_entries_bytes(vs) =~= u16_le(vs[0].len() as u16) + vs[0] + slot_entries_bytes(vs.drop_first()));
    }
}

proof fn lemma_parse_entries(s: Seq<u8>, pos: int, vs: Seq<Seq<u8>>)
    requires
        0 <= pos,
        pos + slot_entries_bytes(vs).len() <= s.len(),
        s.subrange(pos, pos + slot_entries_bytes(vs).len()) == slot_entries_bytes(vs),
        forall|i: int| 0 <= i < vs.len() ==> (#[trigger] vs[i]).len() <= 65535,
    ensures
        parse_slot_values(s, pos, vs.len()) == Some(vs),
    decreases vs.len(),
{
    if vs.len() == 0 {
        assert(vs =~= Seq::<Seq<u8>>::empty());
    } else {
        lemma_entries_front(vs);
        let v0 = vs[0];
        let rest = vs.drop_first();
        let e = slot_entries_bytes(vs);
        let er = slot_entries_bytes(rest);
        assert(e.len() == 2 + v0.len() + er.len());
        assert(s.subrange(pos, pos + 2) =~= e.subrange(0, 2));
        assert(e.subrange(0, 2) =~= u16_le(v0.len() as u16));
        crate::wire::lemma_u16_le_roundtrip(v0.len() as u16, s, pos);
        assert((v0.len() as u16) as int == v0.len());
        let p2 = pos + 2 + v0.len();
        let big = s.subrange(pos, pos + e.len());
        assert(big == e);
        let h = u16_le(v0.len() as u16);
        assert(h.len() == 2);
        assert(e == h + v0 + er);
        assert(e.subrange(2, 2 + v0.len() as int) =~= v0);
        assert(e.subrange(2 + v0.len() as int, e.len() as int) =~= er);
        assert(s.subrange(pos + 2, p2) =~= big.subrange(2, 2 + v0.len() as int));
        assert(s.subrange(pos + 2, p2) =~= v0);
        assert(s.subrange(p2, p2 + er.len()) =~= big.subrange(2 + v0.len() as int, e.len() as int));
        assert(s.subrange(p2, p2 + er.len()) =~= er);
        assert forall|i: int| 0 <= i < rest.len() implies (#[trigger] rest[i]).len() <= 65535 by {
            assert(rest[i] == vs[i + 1]);
        }
        lemma_parse_entries(s, p2, rest);
        assert(seq![v0] + rest =~= vs);
    }
}

/// Decoding encoded slot values gives them back, when there are at most
/// 255 values of at most 65535 bytes each.
pub proof fn lemma_slot_values_roundtrip(vs: Seq<Seq<u8>>)
    requires
        vs.len() <= 255,
        forall|i: int| 0 <= i < vs.len() ==> (#[trigger] vs[i]).len() <= 65535,
    ensures
        slot_values_bytes(vs).len() > 0,
        parse_slot_values(slot_values_bytes(vs), 1, slot_values_bytes(vs)[0] as nat) == Some(vs),
{
    let b = slot_values_bytes(vs);
    assert(b[0] == vs.len() as u8);
    assert(b.subrange(1, 1 + slot_entries_bytes(vs).len() as int) =~= slot_entries_bytes(vs));
    lemma_parse_entries(b, 1, vs);
}

/// The values as byte sequences.
pub open spec fn byte_seqs(values: Seq<Vec<u8>>) -> Seq<Seq<u8>> {
    values.map_values(|v: Vec<u8>| v@)
}

impl StructuralTemplate {
    /// Encodes slot values: a count byte, then each value behind its
    /// two-byte length.
    pub fn encode_slot_values(values: &[Vec<u8>]) -> (out: Vec<u8>)
        ensures
            out@ == slot_values_bytes(byte_seqs(values@)),
    {
        let mut out: Vec<u8> = Vec::new();
        out.push(#[verifier::truncate] (values.len() as u8));
        let ghost head = out@;
        let mut i: usize = 0;
        while i < values.len()
            invariant
                i <= values@.len(),
                head == seq![values@.len() as u8],
                out@ == head + slot_entries_bytes(byte_seqs(values@.subrange(0, i as int))),
            decreases values@.len() - i,
        {
            push_u16_le(&mut out, #[verifier::truncate] (values[i].len() as u16));
            append_bytes(&mut out, values[i].as_slice());
            proof {
                let sub = byte_seqs(values@.subrange(0, i + 1));
                assert(sub.drop_last() =~= byte_seqs(values@.subrange(0, i as int)));
                assert(sub.last() == values@[i as int]@);
                assert(out@ =~= head + slot_entries_bytes(sub));
            }
            i = i + 1;
        }
        assert(values@.subrange(0, i as int) =~= values@);
        out
    }

    /// Decodes slot values; empty input gives no values.
    pub fn decode_slot_values(bytes: &[u8]) -> (r: Result<Vec<Vec<u8>>, CompressError>)
        ensures
            bytes@.len() == 0 ==> r is Ok && r->Ok_0@.len() == 0,
            bytes@.len() > 0 ==> match parse_slot_values(bytes@, 1, bytes@[0] as nat) {
                Some(vs) => r is Ok && byte_seqs(r->Ok_0@) == vs,
                None => r == Err::<Vec<Vec<u8>>, CompressError>(CompressError::SlotValueTruncated),
            },
    {
        let mut values: Vec<Vec<u8>> = Vec::new();
        if bytes.len() == 0 {
            return Ok(values);
        }
        let count = bytes[0] as usize;
        let mut pos: usize = 1;
        let mut i: usize = 0;
        while i < count
            invariant
                i <= count,
                count == bytes@[0],
                bytes@.len() > 0,
                1 <= pos <= bytes@.len(),
                parse_slot_values(bytes@, 1, count as nat) == match parse_slot_values(
                    bytes@,
                    pos as int,
                    (count - i) as nat,
                ) {
                    Some(rest) => Some(byte_seqs(values@) + rest),
                    None => None,
                },
            decreases count - i,
        {
            if bytes.len() - pos < 2 {
                return Err(CompressError::SlotValueTruncated);
            }
            let len = read_u16_le(bytes, pos) as usize;
            if bytes.len() - (pos + 2) < len {
                return Err(CompressError::SlotValueTruncated);
            }
            let value = copy_range(bytes, pos + 2, pos + 2 + len);
            let ghost before = byte_seqs(values@);
            let ghost v = value@;
            values.push(value);
            proof {
                assert(byte_seqs(values@) =~= before.push(v));
                match parse_slot_values(bytes@, pos + 2 + len, (count - i - 1) as nat) {
                    Some(rest) => {
                        assert(before + (seq![v] + rest) =~= byte_seqs(values@) + rest);
                    },
                    None => {},
                }
            }
            pos = pos + 2 + len;
            i = i + 1;
        }
        assert(byte_seqs(values@) + Seq::<Seq<u8>>::empty() =~= byte_seqs(values@));
        Ok(values)
    }
}

/// Slot values behind a flag byte: raw (0) or zstd-compressed (1) when
/// compression saves more than the flag costs on at least 32 bytes.
pub fn encode_slot_values_compressed(values: &[Vec<u8>]) -> (out: Vec<u8>)
    ensures
        ({
            let raw = slot_values_bytes(byte_seqs(values@));
            out@ == seq![0u8] + raw || (raw.len() >= 32 && out@ == seq![1u8] + zstd_frame(
                raw,
                ZSTD_COMPRESSION_LEVEL,
            ) && zstd_frame(raw, ZSTD_COMPRESSION_LEVEL).len() + 1 < raw.len())
        }),
        ({
            let raw = slot_values_bytes(byte_seqs(values@));
            raw.len() < 32 ==> out@ == seq![0u8] + raw
        }),
{
    let raw = StructuralTemplate::encode_slot_values(values);
    if raw.len() < 32 {
        let mut out: Vec<u8> = Vec::new();
        out.push(0);
        append_bytes(&mut out, raw.as_slice());
        assert(out@ =~= seq![0u8] + raw@);
        return out;
    }
    match zstd_compress_raw(raw.as_slice()) {
        Ok(compressed) => {
            if compressed.len() < raw.len() - 1 {
                let mut out: Vec<u8> = Vec::new();
                out.push(1);
                append_bytes(&mut out, compressed.as_slice());
                assert(out@ =~= seq![1u8] + compressed@);
                return out;
            }
        },
        Err(_) => {},
    }
    let mut out: Vec<u8> = Vec::new();
    out.push(0);
    append_bytes(&mut out, raw.as_slice());
    assert(out@ =~= seq![0u8] + raw@);
    out
}

/// Reads slot values behind their flag byte.
pub fn decode_slot_values_compressed(bytes: &[u8]) -> (r: Result<Vec<Vec<u8>>, CompressError>)
    ensures
        match compressed_slots(bytes@) {
            Some(vs) => r is Ok && byte_seqs(r->Ok_0@) == vs,
            None => r is Err,
        },
        bytes@.len() == 0 ==> r is Ok && r->Ok_0@.len() == 0,
        bytes@.len() > 0 && bytes@[0] != 0 && bytes@[0] != 1 ==> r == Err::<
            Vec<Vec<u8>>,
            CompressError,
        >(CompressError::SlotValueTruncated),
        bytes@.len() > 1 && bytes@[0] == 0 ==> match parse_slot_values(
            bytes@.subrange(1, bytes@.len() as int),
            1,
            bytes@[1] as nat,
        ) {
            Some(vs) => r is Ok && byte_seqs(r->Ok_0@) == vs,
            None => r == Err::<Vec<Vec<u8>>, CompressError>(CompressError::SlotValueTruncated),
        },
        bytes@.len() > 0 && bytes@[0] == 1 ==> match zstd_content(bytes@.subrange(1, bytes@.len() as int)) {
            None => r is Err,
            Some(c) => c.len() <= MAX_DECOMPRESSED_BYTES && c.len() > 0 ==> match parse_slot_values(
                c,
                1,
                c[0] as nat,
            ) {
                Some(vs) => r is Ok && byte_seqs(r->Ok_0@) == vs,
                None => r == Err::<Vec<Vec<u8>>, CompressError>(CompressError::SlotValueTruncated),
            },
        },
{
    if bytes.len() == 0 {
        return Ok(Vec::new());
    }
    let flag = bytes[0];
    let data = copy_range(bytes, 1, bytes.len());
    if flag == 0 {
        StructuralTemplate::decode_slot_values(data.as_slice())
    } else if flag == 1 {
        let decompressed = zstd_decompress_raw(data.as_slice(), MAX_DECOMPRESSED_BYTES)?;
        StructuralTemplate::decode_slot_values(decompressed.as_slice())
    } else {
        Err(CompressError::SlotValueTruncated)
    }
}

// ---------------------------------------------------------------------------
// Columnar batches
// ---------------------------------------------------------------------------

pub const COLUMNAR_BATCH_VERSION: u8 = 1;

#[derive(Debug, Clone, PartialEq, Eq)]
pub struct ColumnarBatch {
    pub version: u8,
    pub row_count: u32,
    pub columns: Vec<ColumnarColumn>,
}

/// The concatenated payloads of the items.
pub open spec fn joined_payloads(items: Seq<(SourceKind, &[u8])>) -> Seq<u8>
    decreases items.len(),
{
    if items.len() == 0 {
        Seq::empty()
    } else {
        joined_payloads(items.drop_last()) + items.last().1@
    }
}

/// The items as kinds and bytes.
pub open spec fn item_views(items: Seq<(SourceKind, &[u8])>) -> Seq<(SourceKind, Seq<u8>)> {
    items.map_values(|it: (SourceKind, &[u8])| (it.0, it.1@))
}

/// The items' payloads one after another.
pub open spec fn joined_views(items: Seq<(SourceKind, Seq<u8>)>) -> Seq<u8>
    decreases items.len(),
{
    if items.len() == 0 {
        Seq::empty()
    } else {
        joined_views(items.drop_last()) + items.last().1
    }
}

/// The items' kind tags.
pub open spec fn view_tags(items: Seq<(SourceKind, Seq<u8>)>) -> Seq<u8> {
    items.map_values(|it: (SourceKind, Seq<u8>)| it.0.tag_spec())
}

/// The items' payload lengths, truncated to 32 bits.
pub open spec fn view_lens(items: Seq<(SourceKind, Seq<u8>)>) -> Seq<u32> {
    items.map_values(|it: (SourceKind, Seq<u8>)| it.1.len() as u32)
}

/// The length column's bytes: the first length, then the deltas.
pub open spec fn lens_column(lens: Seq<u32>) -> Seq<u8> {
    if lens.len() == 0 {
        Seq::empty()
    } else {
        u32_le(lens[0]) + delta_varints(lens, lens.len())
    }
}

/// `b` is the columnar batch of `items`: a kind column (run-length
/// encoded), a length column (first length and deltas) and the joined
/// payloads, zstd-compressed when that is shorter; no columns when there
/// are no items.
pub open spec fn batch_of(b: ColumnarBatch, items: Seq<(SourceKind, Seq<u8>)>) -> bool {
    &&& b.version == COLUMNAR_BATCH_VERSION
    &&& b.row_count == items.len() as u32
    &&& items.len() == 0 ==> b.columns@.len() == 0
    &&& items.len() > 0 ==> {
        &&& b.columns@.len() == 3
        &&& b.columns@[0].kind == ColumnKind::SourceKind
        &&& b.columns@[0].encoding == ColumnEncoding::Rle
        &&& rle_expand(b.columns@[0].data@, b.columns@[0].data@.len() / 5) == view_tags(items)
        &&& b.columns@[1].kind == ColumnKind::PayloadLen
        &&& b.columns@[1].encoding == ColumnEncoding::DeltaU32
        &&& b.columns@[1].data@ == lens_column(view_lens(items))
        &&& b.columns@[2].kind == ColumnKind::PayloadData
        &&& (b.columns@[2].encoding == ColumnEncoding::Raw && b.columns@[2].data@ == joined_views(items))
            || (b.columns@[2].encoding == ColumnEncoding::Zstd && b.columns@[2].data@ == zstd_frame(
            joined_views(items),
            ZSTD_COMPRESSION_LEVEL,
        ) && zstd_content(b.columns@[2].data@) == Some(joined_views(items))
            && b.columns@[2].data@.len() < joined_views(items).len())
    }
}

proof fn lemma_joined_views(items: Seq<(SourceKind, &[u8])>)
    ensures
        joined_payloads(items) == joined_views(item_views(items)),
    decreases items.len(),
{
    if items.len() > 0 {
        lemma_joined_views(items.drop_last());
        assert(item_views(items).drop_last() =~= item_views(items.drop_last()));
    }
}

/// The index of the first column of `kind`.
pub open spec fn first_column(columns: Seq<ColumnarColumn>, kind: ColumnKind) -> Option<int>
    decreases columns.len(),
{
    if columns.len() == 0 {
        None
    } else {
        match first_column(columns.drop_last(), kind) {
            Some(i) => Some(i),
            None => if columns.last().kind == kind {
                Some(columns.len() - 1)
            } else {
                None
            },
        }
    }
}

fn find_column(columns: &Vec<ColumnarColumn>, kind: ColumnKind) -> (r: Option<usize>)
    ensures
        r matches Some(i) ==> i < columns@.len(),
        match first_column(columns@, kind) {
            Some(i) => r is Some && r->0 as int == i,
            None => r is None,
        },
{
    let mut i: usize = 0;
    while i < columns.len()
        invariant
            i <= columns@.len(),
            first_column(columns@.subrange(0, i as int), kind) is None,
        decreases columns@.len() - i,
    {
        proof {
            assert(columns@.subrange(0, i + 1).drop_last() =~= columns@.subrange(0, i as int));
        }
        if columns[i].kind == kind {
            proof {
                lemma_first_column_prefix(columns@, i + 1, kind);
            }
            return Some(i);
        }
        i = i + 1;
    }
    assert(columns@.subrange(0, i as int) =~= columns@);
    None
}

/// The first column of a kind is one of the columns.
pub proof fn lemma_first_column_bounds(columns: Seq<ColumnarColumn>, kind: ColumnKind)
    ensures
        first_column(columns, kind) matches Some(i) ==> 0 <= i < columns.len(),
    decreases columns.len(),
{
    if columns.len() > 0 {
        lemma_first_column_bounds(columns.drop_last(), kind);
    }
}

proof fn lemma_first_column_prefix(columns: Seq<ColumnarColumn>, k: int, kind: ColumnKind)
    requires
        0 < k <= columns.len(),
        first_column(columns.subrange(0, k), kind) is Some,
    ensures
        first_column(columns, kind) == first_column(columns.subrange(0, k), kind),
    decreases columns.len() - k,
{
    if k < columns.len() {
        assert(columns.subrange(0, k + 1).drop_last() =~= columns.subrange(0, k));
        lemma_first_column_prefix(columns, k + 1, kind);
    } else {
        assert(columns.subrange(0, k) =~= columns);
    }
}

/// The bytes a payload column holds: its zstd content (within the
/// decompression limit) for a zstd column, its data otherwise.
pub open spec fn payload_column_content(c: ColumnarColumn) -> Result<Seq<u8>, CompressError> {
    if c.encoding == ColumnEncoding::Zstd {
        match zstd_content(c.data@) {
            None => Err(CompressError::ZstdDecode(arbitrary())),
            Some(x) => if x.len() > MAX_DECOMPRESSED_BYTES {
                Err(CompressError::DecompressedTooLarge { actual: x.len() as usize, max: MAX_DECOMPRESSED_BYTES })
            } else {
                Ok(x)
            },
        }
    } else {
        Ok(c.data@)
    }
}

/// The kind of row `i`: its tag in the kind column, binary for a missing
/// or unknown tag.
pub open spec fn kind_at(kinds: Seq<u8>, i: int) -> SourceKind {
    if 0 <= i < kinds.len() {
        match SourceKind::from_tag_spec(kinds[i]) {
            Some(k) => k,
            None => SourceKind::Binary,
        }
    } else {
        SourceKind::Binary
    }
}

/// The payload length of row `i`: its entry in the length column, zero for
/// a missing one.
pub open spec fn len_at(lens: Seq<u32>, i: int) -> nat {
    if 0 <= i < lens.len() {
        lens[i] as nat
    } else {
        0
    }
}

/// The first `n` rows cut in order from the joined payloads, with the offset
/// after them; `None` where a row runs past the end.
pub open spec fn split_rows(kinds: Seq<u8>, lens: Seq<u32>, all: Seq<u8>, n: nat) -> Option<(Seq<(SourceKind, Seq<u8>)>, nat)>
    decreases n,
{
    if n == 0 {
        Some((Seq::empty(), 0))
    } else {
        match split_rows(kinds, lens, all, (n - 1) as nat) {
            None => None,
            Some((items, off)) => {
                let len = len_at(lens, n - 1);
                if off + len > all.len() {
                    None
                } else {
                    Some((items.push((kind_at(kinds, n - 1), all.subrange(off as int, (off + len) as int))), off + len))
                }
            },
        }
    }
}

/// What decoding a batch gives: no rows for a row count of zero; else the
/// kind column (run-length), the length column (delta-encoded) and the
/// payload column (raw or zstd), each empty when missing, and the rows cut
/// from the payloads.
pub open spec fn decode_batch_spec(b: ColumnarBatch) -> Result<Seq<(SourceKind, Seq<u8>)>, CompressError> {
    if b.row_count == 0 {
        Ok(Seq::empty())
    } else {
        let kinds = match first_column(b.columns@, ColumnKind::SourceKind) {
            Some(i) => rle_expand(b.columns@[i].data@, b.columns@[i].data@.len() / 5),
            None => Seq::empty(),
        };
        let lens = match first_column(b.columns@, ColumnKind::PayloadLen) {
            Some(i) => delta_column_values(b.columns@[i].data@),
            None => Ok(Seq::empty()),
        };
        let all = match first_column(b.columns@, ColumnKind::PayloadData) {
            Some(i) => payload_column_content(b.columns@[i]),
            None => Ok(Seq::empty()),
        };
        match lens {
            Err(e) => Err(e),
            Ok(ls) => match all {
                Err(e) => Err(e),
                Ok(a) => match split_rows(kinds, ls, a, b.row_count as nat) {
                    None => Err(CompressError::ColumnarPayloadTruncated),
                    Some((items, _)) => Ok(items),
                },
            },
        }
    }
}

/// Decoded rows as kinds and bytes.
pub open spec fn row_views(rows: Seq<(SourceKind, Vec<u8>)>) -> Seq<(SourceKind, Seq<u8>)> {
    rows.map_values(|r: (SourceKind, Vec<u8>)| (r.0, r.1@))
}

proof fn lemma_split_none_extends(kinds: Seq<u8>, lens: Seq<u32>, all: Seq<u8>, k: nat, n: nat)
    requires
        k <= n,
        split_rows(kinds, lens, all, k) is None,
    ensures
        split_rows(kinds, lens, all, n) is None,
    decreases n - k,
{
    if k < n {
        lemma_split_none_extends(kinds, lens, all, k + 1, n);
    }
}

proof fn lemma_delta_varints_prefix(values: Seq<u32>, m: nat, n: nat)
    requires
        m <= n,
    ensures
        delta_varints(values, m).len() <= delta_varints(values, n).len(),
        delta_varints(values, n).subrange(0, delta_varints(values, m).len() as int) == delta_varints(values, m),
    decreases n,
{
    if n > m {
        lemma_delta_varints_prefix(values, m, (n - 1) as nat);
        if n >= 2 {
            let a = delta_varints(values, (n - 1) as nat);
            let x = varint_bytes(vstd::wrapping::u32_specs::wrapping_sub(values[n - 1], values[n - 2]));
            assert(delta_varints(values, n) == a + x);
            assert((a + x).subrange(0, delta_varints(values, m).len() as int) =~= a.subrange(0, delta_varints(values, m).len() as int));
        }
    } else {
        assert(delta_varints(values, n).subrange(0, delta_varints(values, n).len() as int) =~= delta_varints(values, n));
    }
}

proof fn lemma_delta_values_written(values: Seq<u32>, s: Seq<u8>, m: nat)
    requires
        1 <= m <= values.len(),
        s == u32_le(values[0]) + delta_varints(values, values.len()),
    ensures
        delta_values_from(s, 4 + delta_varints(values, m).len() as int, values[m - 1]) == Ok::<Seq<u32>, CompressError>(
            values.subrange(m as int, values.len() as int),
        ),
    decreases values.len() - m,
{
    let n = values.len();
    lemma_delta_varints_prefix(values, m, n);
    let p: int = 4 + delta_varints(values, m).len() as int;
    if m == n {
        assert(values.subrange(m as int, n as int) =~= Seq::<u32>::empty());
    } else {
        lemma_delta_varints_prefix(values, m + 1, n);
        let d = vstd::wrapping::u32_specs::wrapping_sub(values[m as int], values[m - 1]);
        let x = varint_bytes(d);
        assert(delta_varints(values, m + 1) == delta_varints(values, m) + x);
        let dn = delta_varints(values, n);
        assert(s.subrange(p, p + x.len()) =~= x) by {
            assert forall|j: int| 0 <= j < x.len() implies #[trigger] s.subrange(p, p + x.len())[j] == x[j] by {
                assert(s[p + j] == dn[delta_varints(values, m).len() + j]);
                assert(dn.subrange(0, delta_varints(values, m + 1).len() as int)[delta_varints(values, m).len() + j]
                    == (delta_varints(values, m) + x)[delta_varints(values, m).len() + j]);
            }
        }
        assert(0u32 >> 0u32 == 0) by (bit_vector);
        assert((d as u64) << 0u64 < 0x1_0000_0000u64) by (bit_vector);
        assert((0u32 | (d << 0u32)) == d) by (bit_vector);
        lemma_varint_parse_written(s, p, 0, 0, d);
        lemma_delta_values_written(values, s, m + 1);
        assert(vstd::wrapping::u32_specs::wrapping_add(values[m - 1], d) == values[m as int]);
        assert(seq![values[m as int]] + values.subrange((m + 1) as int, n as int) =~= values.subrange(m as int, n as int));
    }
}

/// A length column reads back as the lengths it was written from.
pub proof fn lemma_lens_column_roundtrip(values: Seq<u32>)
    ensures
        delta_column_values(lens_column(values)) == Ok::<Seq<u32>, CompressError>(values),
{
    if values.len() > 0 {
        let s = lens_column(values);
        assert(s.subrange(0, 4) =~= u32_le(values[0]));
        lemma_u32_le_roundtrip(values[0], s, 0);
        assert(delta_varints(values, 1) =~= Seq::<u8>::empty());
        lemma_delta_values_written(values, s, 1);
        assert(seq![values[0]] + values.subrange(1, values.len() as int) =~= values);
    } else {
        assert(values =~= Seq::<u32>::empty());
    }
}

proof fn lemma_joined_views_take(items: Seq<(SourceKind, Seq<u8>)>, n: int)
    requires
        0 <= n <= items.len(),
    ensures
        joined_views(items.take(n)).len() <= joined_views(items).len(),
        joined_views(items).subrange(0, joined_views(items.take(n)).len() as int) == joined_views(items.take(n)),
    decreases items.len(),
{
    if n == items.len() {
        assert(items.take(n) =~= items);
        assert(joined_views(items).subrange(0, joined_views(items).len() as int) =~= joined_views(items));
    } else {
        let d = items.drop_last();
        lemma_joined_views_take(d, n);
        assert(d.take(n) =~= items.take(n));
        assert(joined_views(items) == joined_views(d) + items.last().1);
        assert(joined_views(items).subrange(0, joined_views(items.take(n)).len() as int)
            =~= joined_views(d).subrange(0, joined_views(items.take(n)).len() as int));
    }
}

proof fn lemma_split_rows_written(items: Seq<(SourceKind, Seq<u8>)>, n: nat)
    requires
        n <= items.len(),
        forall|i: int| 0 <= i < items.len() ==> (#[trigger] items[i]).1.len() <= u32::MAX,
    ensures
        split_rows(view_tags(items), view_lens(items), joined_views(items), n) == Some(
            (items.take(n as int), joined_views(items.take(n as int)).len()),
        ),
    decreases n,
{
    if n > 0 {
        let m = (n - 1) as nat;
        lemma_split_rows_written(items, m);
        lemma_joined_views_take(items, n as int);
        let prev = items.take(m as int);
        let cur = items.take(n as int);
        assert(cur.drop_last() =~= prev);
        assert(cur.last() == items[m as int]);
        assert(joined_views(cur) == joined_views(prev) + items[m as int].1);
        assert(len_at(view_lens(items), m as int) == items[m as int].1.len());
        assert(SourceKind::from_tag_spec(items[m as int].0.tag_spec()) == Some(items[m as int].0));
        assert(kind_at(view_tags(items), m as int) == items[m as int].0);
        let off: int = joined_views(prev).len() as int;
        assert(joined_views(items).subrange(off, off + items[m as int].1.len()) =~= items[m as int].1) by {
            assert forall|j: int| 0 <= j < items[m as int].1.len() implies #[trigger] joined_views(items).subrange(off, off + items[m as int].1.len())[j] == items[m as int].1[j] by {
                assert(joined_views(items).subrange(0, joined_views(cur).len() as int)[off + j] == joined_views(cur)[off + j]);
            }
        }
        assert(prev.push((items[m as int].0, items[m as int].1)) =~= cur);
    } else {
        assert(items.take(0) =~= Seq::<(SourceKind, Seq<u8>)>::empty());
    }
}

/// Decoding the columnar batch of some items gives the items back, in order,
/// when each payload has at most `u32::MAX` bytes and, for a zstd payload
/// column, the joined payloads fit the decompression limit.
pub proof fn lemma_batch_roundtrip_items(b: ColumnarBatch, items: Seq<(SourceKind, Seq<u8>)>)
    requires
        batch_of(b, items),
        items.len() <= u32::MAX,
        forall|i: int| 0 <= i < items.len() ==> (#[trigger] items[i]).1.len() <= u32::MAX,
        joined_views(items).len() <= MAX_DECOMPRESSED_BYTES,
    ensures
        decode_batch_spec(b) == Ok::<Seq<(SourceKind, Seq<u8>)>, CompressError>(items),
{
    if items.len() == 0 {
        assert(items =~= Seq::<(SourceKind, Seq<u8>)>::empty());
    } else {
        let cols = b.columns@;
        reveal_with_fuel(first_column, 4);
        assert(cols.drop_last().drop_last().drop_last() =~= Seq::<ColumnarColumn>::empty());
        assert(first_column(cols, ColumnKind::SourceKind) == Some(0int));
        assert(first_column(cols, ColumnKind::PayloadLen) == Some(1int));
        assert(first_column(cols, ColumnKind::PayloadData) == Some(2int));
        lemma_lens_column_roundtrip(view_lens(items));
        lemma_split_rows_written(items, items.len());
        assert(items.take(items.len() as int) =~= items);
    }
}

/// The payload column of a batch, from the joined payloads and what zstd
/// compression of them returned: the zstd frame when compression succeeded
/// and the frame is shorter, the joined payloads otherwise.
pub fn payload_column(joined: Vec<u8>, compressed: Result<Vec<u8>, CompressError>) -> (c: ColumnarColumn)
    ensures
        c.kind == ColumnKind::PayloadData,
        compressed is Ok && compressed->Ok_0@.len() < joined@.len() ==> c.encoding == ColumnEncoding::Zstd
            && c.data@ == compressed->Ok_0@,
        !(compressed is Ok && compressed->Ok_0@.len() < joined@.len()) ==> c.encoding == ColumnEncoding::Raw
            && c.data@ == joined@,
{
    match compressed {
        Ok(z) => if z.len() < joined.len() {
            ColumnarColumn { kind: ColumnKind::PayloadData, encoding: ColumnEncoding::Zstd, data: z }
        } else {
            ColumnarColumn { kind: ColumnKind::PayloadData, encoding: ColumnEncoding::Raw, data: joined }
        },
        Err(_) => ColumnarColumn { kind: ColumnKind::PayloadData, encoding: ColumnEncoding::Raw, data: joined },
    }
}

impl ColumnarBatch {
    /// Lays a batch of items out in columns: the kinds run-length encoded,
    /// the lengths delta encoded, and the payloads joined and zstd-compressed
    /// when that makes them shorter.
    pub fn encode_batch(items: &[(SourceKind, &[u8])]) -> (b: ColumnarBatch)
        ensures
            b.version == COLUMNAR_BATCH_VERSION,
            b.row_count == #[verifier::truncate] (items@.len() as u32),
            items@.len() == 0 ==> b.columns@.len() == 0,
            items@.len() > 0 ==> b.columns@.len() == 3 && b.columns@[0].kind == ColumnKind::SourceKind
                && b.columns@[0].encoding == ColumnEncoding::Rle && rle_expand(
                b.columns@[0].data@,
                b.columns@[0].data@.len() / 5,
            ) == items@.map_values(|it: (SourceKind, &[u8])| it.0.tag_spec())
                && b.columns@[1].kind == ColumnKind::PayloadLen && b.columns@[1].encoding
                == ColumnEncoding::DeltaU32 && b.columns@[2].kind == ColumnKind::PayloadData && (
            (b.columns@[2].encoding == ColumnEncoding::Raw && b.columns@[2].data@
                == joined_payloads(items@)) || (b.columns@[2].encoding == ColumnEncoding::Zstd
                && b.columns@[2].data@ == zstd_frame(joined_payloads(items@), ZSTD_COMPRESSION_LEVEL)
                && zstd_content(b.columns@[2].data@) == Some(joined_payloads(items@))
                && b.columns@[2].data@.len() < joined_payloads(items@).len())),
            batch_of(b, item_views(items@)),
    {
        if items.len() == 0 {
            return ColumnarBatch { version: COLUMNAR_BATCH_VERSION, row_count: 0, columns: Vec::new() };
        }
        let mut kinds: Vec<u8> = Vec::new();
        let mut lengths: Vec<u32> = Vec::new();
        let mut all_payloads: Vec<u8> = Vec::new();
        let mut i: usize = 0;
        while i < items.len()
            invariant
                i <= items@.len(),
                kinds@ == items@.subrange(0, i as int).map_values(
                    |it: (SourceKind, &[u8])| it.0.tag_spec(),
                ),
                lengths@ == items@.subrange(0, i as int).map_values(
                    |it: (SourceKind, &[u8])| it.1@.len() as u32,
                ),
                all_payloads@ == joined_payloads(items@.subrange(0, i as int)),
            decreases items@.len() - i,
        {
            let (kind, bytes) = items[i];
            kinds.push(kind.tag());
            lengths.push(#[verifier::truncate] (bytes.len() as u32));
            append_bytes(&mut all_payloads, bytes);
            proof {
                let sub = items@.subrange(0, i + 1);
                assert(sub.drop_last() =~= items@.subrange(0, i as int));
                assert(kinds@ =~= sub.map_values(|it: (SourceKind, &[u8])| it.0.tag_spec()));
                assert(lengths@ =~= sub.map_values(|it: (SourceKind, &[u8])| it.1@.len() as u32));
            }
            i = i + 1;
        }
        assert(items@.subrange(0, i as int) =~= items@);
        let mut columns: Vec<ColumnarColumn> = Vec::new();
        columns.push(rle_encode(kinds.as_slice(), ColumnKind::SourceKind));
        columns.push(delta_u32_encode(lengths.as_slice(), ColumnKind::PayloadLen));
        let compressed = zstd_compress_raw(all_payloads.as_slice());
        let column = payload_column(all_payloads, compressed);
        columns.push(column);
        proof {
            lemma_joined_views(items@);
            assert(view_tags(item_views(items@)) =~= items@.map_values(|it: (SourceKind, &[u8])| it.0.tag_spec()));
            assert(view_lens(item_views(items@)) =~= lengths@);
        }
        ColumnarBatch {
            version: COLUMNAR_BATCH_VERSION,
            row_count: #[verifier::truncate] (items.len() as u32),
            columns,
        }
    }

    /// Splits a batch back into items: kinds (unknown tags read as binary)
    /// and payload lengths come from their columns (missing entries read as
    /// binary and zero), payloads are cut from the joined data in order.
    pub fn decode_batch(&self) -> (r: Result<Vec<(SourceKind, Vec<u8>)>, CompressError>)
        ensures
            match decode_batch_spec(*self) {
                Ok(rows) => r is Ok && row_views(r->Ok_0@) == rows,
                Err(e) => r is Err && error_matches(r->Err_0, e),
            },
    {
        let mut items: Vec<(SourceKind, Vec<u8>)> = Vec::new();
        if self.row_count == 0 {
            assert(row_views(items@) =~= Seq::<(SourceKind, Seq<u8>)>::empty());
            return Ok(items);
        }
        let ghost spec_kinds = match first_column(self.columns@, ColumnKind::SourceKind) {
            Some(i) => rle_expand(self.columns@[i].data@, self.columns@[i].data@.len() / 5),
            None => Seq::<u8>::empty(),
        };
        let ghost spec_lens = match first_column(self.columns@, ColumnKind::PayloadLen) {
            Some(i) => delta_column_values(self.columns@[i].data@),
            None => Ok(Seq::<u32>::empty()),
        };
        let ghost spec_all = match first_column(self.columns@, ColumnKind::PayloadData) {
            Some(i) => payload_column_content(self.columns@[i]),
            None => Ok(Seq::<u8>::empty()),
        };
        proof {
            lemma_first_column_bounds(self.columns@, ColumnKind::SourceKind);
            lemma_first_column_bounds(self.columns@, ColumnKind::PayloadLen);
            lemma_first_column_bounds(self.columns@, ColumnKind::PayloadData);
        }
        let kinds: Vec<u8> = match find_column(&self.columns, ColumnKind::SourceKind) {
            Some(i) => {
                assert(first_column(self.columns@, ColumnKind::SourceKind) == Some(i as int));
                let k = match rle_decode(&self.columns[i]) {
                    Ok(k) => k,
                    Err(e) => {
                        return Err(e);
                    },
                };
                assert(k@ == rle_expand(self.columns@[i as int].data@, self.columns@[i as int].data@.len() / 5));
                k
            },
            None => {
                assert(first_column(self.columns@, ColumnKind::SourceKind) is None);
                Vec::new()
            },
        };
        assert(kinds@ == spec_kinds);
        let lengths: Vec<u32> = match find_column(&self.columns, ColumnKind::PayloadLen) {
            Some(i) => match delta_u32_decode(&self.columns[i]) {
                Ok(l) => l,
                Err(e) => {
                    assert(spec_lens is Err);
                    return Err(e);
                },
            },
            None => Vec::new(),
        };
        assert(spec_lens == Ok::<Seq<u32>, CompressError>(lengths@));
        let all_payloads: Vec<u8> = match find_column(&self.columns, ColumnKind::PayloadData) {
            Some(i) => {
                let col = &self.columns[i];
                match col.encoding {
                    ColumnEncoding::Zstd => match zstd_decompress_raw(col.data.as_slice(), MAX_DECOMPRESSED_BYTES) {
                        Ok(c) => c,
                        Err(e) => {
                            assert(spec_all is Err);
                            return Err(e);
                        },
                    },
                    _ => {
                        let c = copy_range(col.data.as_slice(), 0, col.data.len());
                        assert(col.data@.subrange(0, col.data@.len() as int) =~= col.data@);
                        c
                    },
                }
            },
            None => Vec::new(),
        };
        assert(spec_all == Ok::<Seq<u8>, CompressError>(all_payloads@));
        let rows = self.row_count as usize;
        let mut offset: usize = 0;
        let mut i: usize = 0;
        assert(row_views(items@) =~= Seq::<(SourceKind, Seq<u8>)>::empty());
        while i < rows
            invariant
                i <= rows,
                rows == self.row_count,
                offset <= all_payloads@.len(),
                split_rows(kinds@, lengths@, all_payloads@, i as nat) == Some((row_views(items@), offset as nat)),
                self.row_count != 0,
                kinds@ == spec_kinds,
                spec_lens == Ok::<Seq<u32>, CompressError>(lengths@),
                spec_all == Ok::<Seq<u8>, CompressError>(all_payloads@),
                spec_kinds == (match first_column(self.columns@, ColumnKind::SourceKind) {
                    Some(i) => rle_expand(self.columns@[i].data@, self.columns@[i].data@.len() / 5),
                    None => Seq::<u8>::empty(),
                }),
                spec_lens == (match first_column(self.columns@, ColumnKind::PayloadLen) {
                    Some(i) => delta_column_values(self.columns@[i].data@),
                    None => Ok(Seq::<u32>::empty()),
                }),
                spec_all == (match first_column(self.columns@, ColumnKind::PayloadData) {
                    Some(i) => payload_column_content(self.columns@[i]),
                    None => Ok(Seq::<u8>::empty()),
                }),
            decreases rows - i,
        {
            let source_kind = if i < kinds.len() {
                match SourceKind::from_tag(kinds[i]) {
                    Ok(k) => k,
                    Err(_) => SourceKind::Binary,
                }
            } else {
                SourceKind::Binary
            };
            let len: usize = if i < lengths.len() {
                lengths[i] as usize
            } else {
                0
            };
            assert(len_at(lengths@, i as int) == len);
            assert(kind_at(kinds@, i as int) == source_kind);
            if all_payloads.len() - offset < len {
                assert(split_rows(kinds@, lengths@, all_payloads@, (i + 1) as nat) is None);
                proof {
                    lemma_split_none_extends(kinds@, lengths@, all_payloads@, (i + 1) as nat, rows as nat);
                }
                return Err(CompressError::ColumnarPayloadTruncated);
            }
            let ghost before = items@;
            items.push((source_kind, copy_range(all_payloads.as_slice(), offset, offset + len)));
            proof {
                assert(row_views(items@) =~= row_views(before).push((kind_at(kinds@, i as int), all_payloads@.subrange(offset as int, offset + len))));
            }
            offset = offset + len;
            i = i + 1;
        }
        Ok(items)
    }
}


// ---------------------------------------------------------------------------
// Structural templates for flat JSON objects
// ---------------------------------------------------------------------------

/// Whether the bytes are well-formed UTF-8 (std's `str::from_utf8` succeeds).
#[verifier::external_body]
fn utf8_valid(bytes: &[u8]) -> (r: bool)
    ensures
        r == vstd::utf8::valid_utf8(bytes@),
{
    std::str::from_utf8(bytes).is_ok()
}

/// The UTF-8 bytes of the string whose characters are the given bytes taken
/// one by one as code points (how the scanner builds its strings).
pub open spec fn char_bytes(bs: Seq<u8>) -> Seq<u8>
    decreases bs.len(),
{
    if bs.len() == 0 {
        Seq::empty()
    } else {
        char_bytes(bs.drop_last()) + if bs.last() < 0x80 {
            seq![bs.last()]
        } else {
            seq![(0xC0u8 | (bs.last() >> 6u8)) as u8, (0x80u8 | (bs.last() & 0x3Fu8)) as u8]
        }
    }
}

fn push_char_bytes(out: &mut Vec<u8>, bs: &[u8])
    ensures
        final(out)@ == old(out)@ + char_bytes(bs@),
{
    let mut i: usize = 0;
    while i < bs.len()
        invariant
            i <= bs@.len(),
            out@ == old(out)@ + char_bytes(bs@.subrange(0, i as int)),
        decreases bs@.len() - i,
    {
        let b = bs[i];
        if b < 0x80 {
            out.push(b);
        } else {
            out.push(0xC0u8 | (b >> 6u8));
            out.push(0x80u8 | (b & 0x3Fu8));
        }
        proof {
            assert(bs@.subrange(0, i + 1).drop_last() =~= bs@.subrange(0, i as int));
        }
        i = i + 1;
        assert(out@ =~= old(out)@ + char_bytes(bs@.subrange(0, i as int)));
    }
    assert(bs@.subrange(0, i as int) =~= bs@);
}

/// Whitespace among the code points below 256.
pub open spec fn is_trim_space(b: u8) -> bool {
    (0x09 <= b && b <= 0x0D) || b == 0x20 || b == 0x85 || b == 0xA0
}

/// The bytes without leading and trailing whitespace.
pub open spec fn trim_spaces(bs: Seq<u8>) -> Seq<u8>
    decreases bs.len(),
{
    if bs.len() == 0 {
        bs
    } else if is_trim_space(bs[0]) {
        trim_spaces(bs.drop_first())
    } else if is_trim_space(bs.last()) {
        trim_spaces(bs.drop_last())
    } else {
        bs
    }
}

fn trim_bytes(bs: &[u8]) -> (out: Vec<u8>)
    ensures
        out@ == trim_spaces(bs@),
{
    let mut lo: usize = 0;
    let mut hi: usize = bs.len();
    assert(bs@.subrange(0, bs@.len() as int) =~= bs@);
    while lo < hi
        invariant
            lo <= hi <= bs@.len(),
            hi == bs@.len(),
            trim_spaces(bs@) == trim_spaces(bs@.subrange(lo as int, hi as int)),
        ensures
            lo <= hi <= bs@.len(),
            lo == hi || !is_trim_space(bs@[lo as int]),
            trim_spaces(bs@) == trim_spaces(bs@.subrange(lo as int, hi as int)),
        decreases hi - lo,
    {
        let b = bs[lo];
        if !((0x09 <= b && b <= 0x0D) || b == 0x20 || b == 0x85 || b == 0xA0) {
            break;
        }
        proof {
            let sub = bs@.subrange(lo as int, hi as int);
            assert(sub[0] == b);
            assert(sub.drop_first() =~= bs@.subrange(lo + 1, hi as int));
        }
        lo = lo + 1;
    }
    while lo < hi
        invariant
            lo <= hi <= bs@.len(),
            lo == hi || !is_trim_space(bs@[lo as int]),
            trim_spaces(bs@) == trim_spaces(bs@.subrange(lo as int, hi as int)),
        ensures
            lo <= hi <= bs@.len(),
            lo == hi || (!is_trim_space(bs@[lo as int]) && !is_trim_space(bs@[hi - 1])),
            trim_spaces(bs@) == trim_spaces(bs@.subrange(lo as int, hi as int)),
        decreases hi - lo,
    {
        let b = bs[hi - 1];
        if !((0x09 <= b && b <= 0x0D) || b == 0x20 || b == 0x85 || b == 0xA0) {
            break;
        }
        proof {
            let sub = bs@.subrange(lo as int, hi as int);
            assert(sub.drop_last() =~= bs@.subrange(lo as int, hi - 1));
            assert(sub[0] == bs@[lo as int]);
            assert(sub.last() == b);
            if hi - 1 > lo {
                assert(bs@.subrange(lo as int, hi - 1)[0] == bs@[lo as int]);
            }
        }
        hi = hi - 1;
    }
    proof {
        let sub = bs@.subrange(lo as int, hi as int);
        if sub.len() > 0 {
            assert(sub[0] == bs@[lo as int]);
            assert(sub.last() == bs@[hi - 1]);
        }
    }
    copy_range(bs, lo, hi)
}

pub(crate) fn bytes_equal(a: &[u8], b: &[u8]) -> (r: bool)
    ensures
        r == (a@ == b@),
{
    if a.len() != b.len() {
        return false;
    }
    let mut i: usize = 0;
    while i < a.len()
        invariant
            i <= a@.len(),
            a@.len() == b@.len(),
            a@.subrange(0, i as int) == b@.subrange(0, i as int),
        decreases a@.len() - i,
    {
        if a[i] != b[i] {
            assert(a@[i as int] != b@[i as int]);
            return false;
        }
        proof {
            assert(a@.subrange(0, i + 1) =~= a@.subrange(0, i as int).push(a@[i as int]));
            assert(b@.subrange(0, i + 1) =~= b@.subrange(0, i as int).push(b@[i as int]));
        }
        i = i + 1;
    }
    assert(a@.subrange(0, i as int) =~= a@);
    assert(b@.subrange(0, i as int) =~= b@);
    true
}

fn byte_lists_equal(a: &Vec<Vec<u8>>, b: &Vec<Vec<u8>>) -> (r: bool)
    ensures
        r == (byte_seqs(a@) == byte_seqs(b@)),
{
    if a.len() != b.len() {
        assert(byte_seqs(a@).len() != byte_seqs(b@).len());
        return false;
    }
    let mut i: usize = 0;
    while i < a.len()
        invariant
            i <= a@.len(),
            a@.len() == b@.len(),
            forall|j: int| 0 <= j < i ==> a@[j]@ == b@[j]@,
        decreases a@.len() - i,
    {
        if !bytes_equal(a[i].as_slice(), b[i].as_slice()) {
            assert(byte_seqs(a@)[i as int] != byte_seqs(b@)[i as int]);
            return false;
        }
        i = i + 1;
    }
    assert(byte_seqs(a@) =~= byte_seqs(b@));
    true
}

/// The keys as the UTF-8 bytes of their text.
pub open spec fn key_texts(keys: Seq<Seq<u8>>) -> Seq<Seq<u8>> {
    keys.map_values(|k: Seq<u8>| char_bytes(k))
}

/// The keys joined with commas.
pub open spec fn join_keys(keys: Seq<Seq<u8>>) -> Seq<u8>
    decreases keys.len(),
{
    if keys.len() == 0 {
        Seq::empty()
    } else if keys.len() == 1 {
        keys[0]
    } else {
        join_keys(keys.drop_last()) + seq![0x2Cu8] + keys.last()
    }
}

/// The state of the key scanner over the inside of an object.
pub struct KeyScan {
    pub in_string: bool,
    pub depth: nat,
    pub key: Seq<u8>,
    pub collecting_key: bool,
    pub after_colon: bool,
    pub first_pair: bool,
    pub keys: Seq<Seq<u8>>,
    pub parts: Seq<u8>,
}

pub open spec fn key_scan_start() -> KeyScan {
    KeyScan {
        in_string: false,
        depth: 0,
        key: Seq::empty(),
        collecting_key: false,
        after_colon: false,
        first_pair: true,
        keys: Seq::empty(),
        parts: Seq::empty(),
    }
}

/// One byte of the key scanner: a quote at the top level opens or closes a
/// string (a string not after a colon is a key), a colon records the key
/// with its placeholder, a comma starts the next pair, and brackets outside
/// strings change the nesting depth.
pub open spec fn key_scan_step(st: KeyScan, ch: u8) -> KeyScan {
    if ch == 0x22 && st.depth == 0 {
        if !st.in_string {
            KeyScan { in_string: true, collecting_key: !st.after_colon, key: Seq::empty(), ..st }
        } else {
            KeyScan { in_string: false, collecting_key: false, ..st }
        }
    } else if st.in_string && st.collecting_key {
        KeyScan { key: st.key.push(ch), ..st }
    } else if ch == 0x3A && !st.in_string && st.depth == 0 {
        KeyScan {
            after_colon: true,
            parts: st.parts + (if st.first_pair {
                Seq::empty()
            } else {
                seq![0x2Cu8]
            }) + seq![0x22u8] + char_bytes(st.key) + seq![0x22u8, 0x3Au8, 0x7Bu8, 0x7Du8],
            keys: st.keys.push(st.key),
            first_pair: false,
            ..st
        }
    } else if ch == 0x2C && !st.in_string && st.depth == 0 {
        KeyScan { after_colon: false, ..st }
    } else if (ch == 0x7B || ch == 0x5B) && !st.in_string {
        KeyScan { depth: st.depth + 1, ..st }
    } else if (ch == 0x7D || ch == 0x5D) && !st.in_string {
        KeyScan { depth: if st.depth > 0 { (st.depth - 1) as nat } else { 0 }, ..st }
    } else {
        st
    }
}

pub open spec fn key_scan(bs: Seq<u8>) -> KeyScan
    decreases bs.len(),
{
    if bs.len() == 0 {
        key_scan_start()
    } else {
        key_scan_step(key_scan(bs.drop_last()), bs.last())
    }
}

/// The inside of a JSON object: the bytes between its braces, when the input
/// is UTF-8 and starts and ends with a brace.
pub open spec fn object_inner(json: Seq<u8>) -> Option<Seq<u8>> {
    if vstd::utf8::valid_utf8(json) && json.len() >= 2 && json[0] == 0x7B && json.last() == 0x7D {
        Some(json.subrange(1, json.len() - 1))
    } else {
        None
    }
}

#[derive(Debug, Clone, PartialEq, Eq)]
pub struct StructuralTemplate {
    pub template_id: u64,
    pub source_kind: SourceKind,
    /// The keys in order, as the UTF-8 bytes of their text.
    pub keys: Vec<Vec<u8>>,
    /// The object with a `{}` placeholder for each value, as UTF-8 bytes.
    pub pattern: Vec<u8>,
    pub keys_hash: u64,
    pub match_count: u32,
}

/// The value scanner's state.
pub struct ValueScan {
    pub in_string: bool,
    pub depth: nat,
    pub key: Seq<u8>,
    pub value: Seq<u8>,
    pub collecting_key: bool,
    pub collecting_value: bool,
    pub after_colon: bool,
    pub found: Seq<(Seq<u8>, Seq<u8>)>,
}

pub open spec fn value_scan_start() -> ValueScan {
    ValueScan {
        in_string: false,
        depth: 0,
        key: Seq::empty(),
        value: Seq::empty(),
        collecting_key: false,
        collecting_value: false,
        after_colon: false,
        found: Seq::empty(),
    }
}

/// One byte of the value scanner. Strings at the top level are keys before
/// a colon and values after it; a value that is not a string starts at its
/// first byte after the colon; a top-level comma ends the pair, recording
/// the key with its trimmed value when a key was seen.
pub open spec fn value_scan_step(st: ValueScan, ch: u8) -> ValueScan {
    if ch == 0x22 && st.depth == 0 {
        if !st.in_string {
            if !st.after_colon {
                ValueScan { in_string: true, collecting_key: true, key: Seq::empty(), ..st }
            } else if !st.collecting_value {
                ValueScan { in_string: true, collecting_value: true, value: seq![0x22u8], ..st }
            } else {
                ValueScan { in_string: true, ..st }
            }
        } else {
            ValueScan {
                in_string: false,
                value: if st.collecting_value {
                    st.value.push(0x22)
                } else {
                    st.value
                },
                collecting_key: false,
                ..st
            }
        }
    } else if st.in_string && st.collecting_key {
        ValueScan { key: st.key.push(ch), ..st }
    } else if st.in_string && st.collecting_value {
        ValueScan { value: st.value.push(ch), ..st }
    } else if ch == 0x3A && !st.in_string && st.depth == 0 {
        ValueScan {
            after_colon: true,
            value: if st.collecting_value {
                st.value
            } else {
                Seq::empty()
            },
            ..st
        }
    } else if ch == 0x2C && !st.in_string && st.depth == 0 {
        ValueScan {
            found: if st.after_colon && st.key.len() > 0 {
                st.found.push((st.key, trim_spaces(st.value)))
            } else {
                st.found
            },
            after_colon: false,
            collecting_value: false,
            value: Seq::empty(),
            ..st
        }
    } else if (ch == 0x7B || ch == 0x5B) && !st.in_string {
        ValueScan {
            depth: st.depth + 1,
            value: if st.collecting_value {
                st.value.push(ch)
            } else {
                st.value
            },
            ..st
        }
    } else if (ch == 0x7D || ch == 0x5D) && !st.in_string {
        ValueScan {
            depth: if st.depth > 0 { (st.depth - 1) as nat } else { 0 },
            value: if st.collecting_value {
                st.value.push(ch)
            } else {
                st.value
            },
            ..st
        }
    } else if st.collecting_value {
        ValueScan { value: st.value.push(ch), ..st }
    } else if st.after_colon && !st.in_string {
        ValueScan { collecting_value: true, value: seq![ch], ..st }
    } else {
        st
    }
}

pub open spec fn value_scan(bs: Seq<u8>) -> ValueScan
    decreases bs.len(),
{
    if bs.len() == 0 {
        value_scan_start()
    } else {
        value_scan_step(value_scan(bs.drop_last()), bs.last())
    }
}

/// The (key, value) pairs found in the inside of an object, with the last
/// pair, which no comma closes.
pub open spec fn found_pairs(inner: Seq<u8>) -> Seq<(Seq<u8>, Seq<u8>)> {
    let st = value_scan(inner);
    if st.after_colon && st.key.len() > 0 {
        st.found.push((st.key, trim_spaces(st.value)))
    } else {
        st.found
    }
}

/// The value of the first pair whose key, as text, is `key`.
pub open spec fn lookup_found(found: Seq<(Seq<u8>, Seq<u8>)>, key: Seq<u8>) -> Option<Seq<u8>>
    decreases found.len(),
{
    if found.len() == 0 {
        None
    } else if char_bytes(found[0].0) == key {
        Some(char_bytes(found[0].1))
    } else {
        lookup_found(found.drop_first(), key)
    }
}

/// The values for `keys` in order, each the first matching pair's value.
pub open spec fn values_for_keys(found: Seq<(Seq<u8>, Seq<u8>)>, keys: Seq<Seq<u8>>) -> Option<Seq<Seq<u8>>>
    decreases keys.len(),
{
    if keys.len() == 0 {
        Some(Seq::empty())
    } else {
        match values_for_keys(found, keys.drop_last()) {
            None => None,
            Some(vs) => match lookup_found(found, keys.last()) {
                None => None,
                Some(v) => Some(vs.push(v)),
            },
        }
    }
}

/// The index of the first `{}` in `s` at or after `from`.
pub open spec fn first_placeholder(s: Seq<u8>, from: int) -> Option<int>
    decreases s.len() - from,
{
    if from < 0 || from + 2 > s.len() {
        None
    } else if s[from] == 0x7B && s[from + 1] == 0x7D {
        Some(from)
    } else {
        first_placeholder(s, from + 1)
    }
}

/// `s` with its first `{}` replaced by `v`, or unchanged without one.
pub open spec fn replace_first(s: Seq<u8>, v: Seq<u8>) -> Seq<u8> {
    match first_placeholder(s, 0) {
        None => s,
        Some(i) => s.subrange(0, i) + v + s.subrange(i + 2, s.len() as int),
    }
}

/// The pattern after filling the first `n` values in turn; a value that is
/// not UTF-8 fills in as empty text.
pub open spec fn fill_pattern(pattern: Seq<u8>, values: Seq<Seq<u8>>, n: nat) -> Seq<u8>
    decreases n,
{
    if n == 0 {
        pattern
    } else {
        let v = values[n - 1];
        replace_first(
            fill_pattern(pattern, values, (n - 1) as nat),
            if vstd::utf8::valid_utf8(v) {
                v
            } else {
                Seq::empty()
            },
        )
    }
}

fn find_placeholder(s: &[u8]) -> (r: Option<usize>)
    ensures
        r matches Some(i) ==> i + 2 <= s@.len(),
        match first_placeholder(s@, 0) {
            Some(i) => r is Some && r->0 == i,
            None => r is None,
        },
{
    let n = s.len();
    if n < 2 {
        return None;
    }
    let mut i: usize = 0;
    while i < n - 1
        invariant
            n == s@.len(),
            n >= 2,
            i <= n - 1,
            first_placeholder(s@, 0) == first_placeholder(s@, i as int),
        decreases n - i,
    {
        if s[i] == 0x7B && s[i + 1] == 0x7D {
            return Some(i);
        }
        i = i + 1;
    }
    None
}

impl StructuralTemplate {
    /// The template of a flat JSON object: its keys in order and the object
    /// with every value replaced by `{}`.
    pub fn from_json(json_bytes: &[u8], template_id: u64) -> (r: Option<StructuralTemplate>)
        ensures
            match object_inner(json_bytes@) {
                None => r is None,
                Some(inner) => {
                    let st = key_scan(inner);
                    if st.keys.len() == 0 {
                        r is None
                    } else {
                        r is Some && r->0.template_id == template_id && r->0.source_kind
                            == SourceKind::Json && byte_seqs(r->0.keys@) == key_texts(st.keys) && r->0.pattern@ == seq![0x7Bu8] + st.parts + seq![0x7Du8]
                            && r->0.keys_hash == fnv1a(join_keys(byte_seqs(r->0.keys@)))
                            && r->0.match_count == 0
                    }
                },
            },
    {
        if !utf8_valid(json_bytes) || json_bytes.len() < 2 || json_bytes[0] != 0x7B
            || json_bytes[json_bytes.len() - 1] != 0x7D {
            return None;
        }
        let inner = copy_range(json_bytes, 1, json_bytes.len() - 1);
        let bytes = inner.as_slice();
        let mut in_string = false;
        let mut depth: usize = 0;
        let mut key: Vec<u8> = Vec::new();
        let mut collecting_key = false;
        let mut after_colon = false;
        let mut first_pair = true;
        let mut keys: Vec<Vec<u8>> = Vec::new();
        let mut raw_keys: Ghost<Seq<Seq<u8>>> = Ghost(Seq::empty());
        let mut parts: Vec<u8> = Vec::new();
        let mut pos: usize = 0;
        while pos < bytes.len()
            invariant
                pos <= bytes@.len(),
                depth <= pos,
                ({
                    let st = key_scan(bytes@.subrange(0, pos as int));
                    &&& st.in_string == in_string
                    &&& st.depth == depth
                    &&& st.key == key@
                    &&& st.collecting_key == collecting_key
                    &&& st.after_colon == after_colon
                    &&& st.first_pair == first_pair
                    &&& st.keys == raw_keys@
                    &&& st.parts == parts@
                }),
                byte_seqs(keys@) == key_texts(raw_keys@),
            decreases bytes@.len() - pos,
        {
            let ch = bytes[pos];
            proof {
                assert(bytes@.subrange(0, pos + 1).drop_last() =~= bytes@.subrange(0, pos as int));
            }
            if ch == 0x22 && depth == 0 {
                if !in_string {
                    in_string = true;
                    collecting_key = !after_colon;
                    key = Vec::new();
                } else {
                    in_string = false;
                    collecting_key = false;
                }
            } else if in_string && collecting_key {
                key.push(ch);
            } else if ch == 0x3A && !in_string && depth == 0 {
                after_colon = true;
                if !first_pair {
                    parts.push(0x2C);
                }
                parts.push(0x22);
                push_char_bytes(&mut parts, key.as_slice());
                parts.push(0x22);
                parts.push(0x3A);
                parts.push(0x7B);
                parts.push(0x7D);
                let mut encoded: Vec<u8> = Vec::new();
                push_char_bytes(&mut encoded, key.as_slice());
                proof {
                    assert(encoded@ =~= char_bytes(key@));
                }
                let ghost before = byte_seqs(keys@);
                keys.push(encoded);
                proof {
                    raw_keys@ = raw_keys@.push(key@);
                    assert(byte_seqs(keys@) =~= before.push(char_bytes(key@)));
                    assert(key_texts(raw_keys@) =~= before.push(char_bytes(key@)));
                }
                first_pair = false;
            } else if ch == 0x2C && !in_string && depth == 0 {
                after_colon = false;
            } else if (ch == 0x7B || ch == 0x5B) && !in_string {
                depth = depth + 1;
            } else if (ch == 0x7D || ch == 0x5D) && !in_string {
                if depth > 0 {
                    depth = depth - 1;
                }
            }
            pos = pos + 1;
            proof {
                let st = key_scan(bytes@.subrange(0, pos as int));
                assert(parts@ =~= st.parts);
            }
        }
        assert(bytes@.subrange(0, pos as int) =~= bytes@);
        if keys.len() == 0 {
            return None;
        }
        let mut pattern: Vec<u8> = Vec::new();
        pattern.push(0x7B);
        append_bytes(&mut pattern, parts.as_slice());
        pattern.push(0x7D);
        assert(pattern@ =~= seq![0x7Bu8] + parts@ + seq![0x7Du8]);
        let joined = join_key_list(&keys);
        let keys_hash = simple_hash(joined.as_slice());
        Some(
            StructuralTemplate {
                template_id,
                source_kind: SourceKind::Json,
                keys,
                pattern,
                keys_hash,
                match_count: 0,
            },
        )
    }

    /// The values of a JSON object for this template's keys, in key order:
    /// none unless the object is UTF-8, has as many pairs as the template has
    /// keys, and has every key.
    pub fn extract_values(&self, json_bytes: &[u8]) -> (r: Option<Vec<Vec<u8>>>)
        ensures
            match object_inner(json_bytes@) {
                None => r is None,
                Some(inner) => {
                    let found = found_pairs(inner);
                    if found.len() != self.keys@.len() {
                        r is None
                    } else {
                        match values_for_keys(found, byte_seqs(self.keys@)) {
                            None => r is None,
                            Some(vs) => r is Some && byte_seqs(r->0@) == vs,
                        }
                    }
                },
            },
    {
        if !utf8_valid(json_bytes) || json_bytes.len() < 2 || json_bytes[0] != 0x7B
            || json_bytes[json_bytes.len() - 1] != 0x7D {
            return None;
        }
        let inner = copy_range(json_bytes, 1, json_bytes.len() - 1);
        let found = scan_values(inner.as_slice());
        if found.len() != self.keys.len() {
            return None;
        }
        let mut values: Vec<Vec<u8>> = Vec::new();
        let mut i: usize = 0;
        while i < self.keys.len()
            invariant
                i <= self.keys@.len(),
                pair_seqs(found@) == found_pairs(json_bytes@.subrange(1, json_bytes@.len() - 1)),
                found@.len() == self.keys@.len(),
                values_for_keys(pair_seqs(found@), byte_seqs(self.keys@.subrange(0, i as int))) == Some(
                    byte_seqs(values@),
                ),
            decreases self.keys@.len() - i,
        {
            proof {
                let ks = byte_seqs(self.keys@.subrange(0, i + 1));
                assert(ks.drop_last() =~= byte_seqs(self.keys@.subrange(0, i as int)));
                assert(ks.last() == self.keys@[i as int]@);
            }
            match lookup_value(&found, self.keys[i].as_slice()) {
                Some(v) => {
                    let ghost before = byte_seqs(values@);
                    let ghost vv = v@;
                    values.push(v);
                    assert(byte_seqs(values@) =~= before.push(vv));
                },
                None => {
                    proof {
                        lemma_values_for_keys_none_sticks(
                            pair_seqs(found@),
                            byte_seqs(self.keys@),
                            (i + 1) as nat,
                        );
                    }
                    return None;
                },
            }
            i = i + 1;
        }
        assert(self.keys@.subrange(0, i as int) =~= self.keys@);
        Some(values)
    }

    /// Fills the pattern's placeholders with the values in turn.
    pub fn reconstruct(&self, values: &[Vec<u8>]) -> (r: Result<Vec<u8>, CompressError>)
        ensures
            values@.len() != self.keys@.len() ==> r == Err::<Vec<u8>, CompressError>(
                CompressError::TemplateSlotCountMismatch {
                    expected: self.keys@.len() as usize,
                    actual: values@.len() as usize,
                },
            ),
            values@.len() == self.keys@.len() ==> r is Ok && r->Ok_0@ == fill_pattern(
                self.pattern@,
                byte_seqs(values@),
                values@.len(),
            ),
    {
        if values.len() != self.keys.len() {
            return Err(
                CompressError::TemplateSlotCountMismatch {
                    expected: self.keys.len(),
                    actual: values.len(),
                },
            );
        }
        let mut result = copy_range(self.pattern.as_slice(), 0, self.pattern.len());
        assert(result@ =~= self.pattern@);
        let mut i: usize = 0;
        while i < values.len()
            invariant
                i <= values@.len(),
                result@ == fill_pattern(self.pattern@, byte_seqs(values@), i as nat),
            decreases values@.len() - i,
        {
            let ok = utf8_valid(values[i].as_slice());
            let empty: Vec<u8> = Vec::new();
            let value: &[u8] = if ok {
                values[i].as_slice()
            } else {
                empty.as_slice()
            };
            let ghost fill: Seq<u8> = if vstd::utf8::valid_utf8(byte_seqs(values@)[i as int]) {
                byte_seqs(values@)[i as int]
            } else {
                Seq::empty()
            };
            assert(value@ =~= fill);
            let ghost prev = result@;
            let rlen = result.len();
            match find_placeholder(result.as_slice()) {
                None => {
                    assert(result@ == replace_first(prev, fill));
                },
                Some(at) => {
                    let mut next = copy_range(result.as_slice(), 0, at);
                    append_bytes(&mut next, value);
                    let tail = copy_range(result.as_slice(), at + 2, rlen);
                    append_bytes(&mut next, tail.as_slice());
                    assert(next@ =~= prev.subrange(0, at as int) + fill + prev.subrange(
                        at + 2,
                        prev.len() as int,
                    ));
                    result = next;
                    assert(result@ == replace_first(prev, fill));
                },
            }
            i = i + 1;
        }
        Ok(result)
    }
}

proof fn lemma_values_for_keys_none_sticks(found: Seq<(Seq<u8>, Seq<u8>)>, keys: Seq<Seq<u8>>, k: nat)
    requires
        k <= keys.len(),
        values_for_keys(found, keys.subrange(0, k as int)) is None,
    ensures
        values_for_keys(found, keys) is None,
    decreases keys.len() - k,
{
    if k < keys.len() {
        assert(keys.subrange(0, k as int + 1).drop_last() =~= keys.subrange(0, k as int));
        lemma_values_for_keys_none_sticks(found, keys, k + 1);
    } else {
        assert(keys.subrange(0, k as int) =~= keys);
    }
}

/// The keys joined with commas.
fn join_key_list(keys: &Vec<Vec<u8>>) -> (out: Vec<u8>)
    ensures
        out@ == join_keys(byte_seqs(keys@)),
{
    let mut out: Vec<u8> = Vec::new();
    let mut i: usize = 0;
    while i < keys.len()
        invariant
            i <= keys@.len(),
            out@ == join_keys(byte_seqs(keys@.subrange(0, i as int))),
        decreases keys@.len() - i,
    {
        if i > 0 {
            out.push(0x2C);
        }
        append_bytes(&mut out, keys[i].as_slice());
        proof {
            let ks = byte_seqs(keys@.subrange(0, i + 1));
            assert(ks.drop_last() =~= byte_seqs(keys@.subrange(0, i as int)));
            if i == 0 {
                assert(out@ =~= ks[0]);
            }
        }
        i = i + 1;
    }
    assert(keys@.subrange(0, i as int) =~= keys@);
    out
}

/// The (key, value) pairs of the inside of an object.
fn scan_values(bytes: &[u8]) -> (found: Vec<(Vec<u8>, Vec<u8>)>)
    ensures
        pair_seqs(found@) == found_pairs(bytes@),
{
    let mut in_string = false;
    let mut depth: usize = 0;
    let mut key: Vec<u8> = Vec::new();
    let mut value: Vec<u8> = Vec::new();
    let mut collecting_key = false;
    let mut collecting_value = false;
    let mut after_colon = false;
    let mut found: Vec<(Vec<u8>, Vec<u8>)> = Vec::new();
    let mut pos: usize = 0;
    while pos < bytes.len()
        invariant
            pos <= bytes@.len(),
            depth <= pos,
            ({
                let st = value_scan(bytes@.subrange(0, pos as int));
                &&& st.in_string == in_string
                &&& st.depth == depth
                &&& st.key == key@
                &&& st.value == value@
                &&& st.collecting_key == collecting_key
                &&& st.collecting_value == collecting_value
                &&& st.after_colon == after_colon
                &&& st.found == pair_seqs(found@)
            }),
        decreases bytes@.len() - pos,
    {
        let ch = bytes[pos];
        proof {
            assert(bytes@.subrange(0, pos + 1).drop_last() =~= bytes@.subrange(0, pos as int));
        }
        if ch == 0x22 && depth == 0 {
            if !in_string {
                in_string = true;
                if !after_colon {
                    collecting_key = true;
                    key = Vec::new();
                } else if !collecting_value {
                    collecting_value = true;
                    value = Vec::new();
                    value.push(0x22);
                }
            } else {
                in_string = false;
                if collecting_value {
                    value.push(0x22);
                }
                collecting_key = false;
            }
        } else if in_string && collecting_key {
            key.push(ch);
        } else if in_string && collecting_value {
            value.push(ch);
        } else if ch == 0x3A && !in_string && depth == 0 {
            after_colon = true;
            if !collecting_value {
                value = Vec::new();
            }
        } else if ch == 0x2C && !in_string && depth == 0 {
            if after_colon && key.len() > 0 {
                let k = copy_range(key.as_slice(), 0, key.len());
                let v = trim_bytes(value.as_slice());
                let ghost before = pair_seqs(found@);
                let ghost kk = k@;
                let ghost vv = v@;
                found.push((k, v));
                proof {
                    assert(kk =~= key@);
                    assert(pair_seqs(found@) =~= before.push((kk, vv)));
                }
            }
            after_colon = false;
            collecting_value = false;
            value = Vec::new();
        } else if (ch == 0x7B || ch == 0x5B) && !in_string {
            depth = depth + 1;
            if collecting_value {
                value.push(ch);
            }
        } else if (ch == 0x7D || ch == 0x5D) && !in_string {
            if depth > 0 {
                depth = depth - 1;
            }
            if collecting_value {
                value.push(ch);
            }
        } else if collecting_value {
            value.push(ch);
        } else if after_colon && !in_string {
            collecting_value = true;
            value = Vec::new();
            value.push(ch);
        }
        pos = pos + 1;
        proof {
            let st = value_scan(bytes@.subrange(0, pos as int));
            assert(value@ =~= st.value);
            assert(key@ =~= st.key);
        }
    }
    assert(bytes@.subrange(0, pos as int) =~= bytes@);
    if after_colon && key.len() > 0 {
        let k = copy_range(key.as_slice(), 0, key.len());
        let v = trim_bytes(value.as_slice());
        let ghost before = pair_seqs(found@);
        let ghost kk = k@;
        let ghost vv = v@;
        found.push((k, v));
        proof {
            assert(kk =~= key@);
            assert(pair_seqs(found@) =~= before.push((kk, vv)));
        }
    }
    found
}

/// The pairs as byte sequences.
pub open spec fn pair_seqs(found: Seq<(Vec<u8>, Vec<u8>)>) -> Seq<(Seq<u8>, Seq<u8>)> {
    found.map_values(|p: (Vec<u8>, Vec<u8>)| (p.0@, p.1@))
}

/// The value of the first pair whose key's text is `key`, as UTF-8 bytes.
fn lookup_value(found: &Vec<(Vec<u8>, Vec<u8>)>, key: &[u8]) -> (r: Option<Vec<u8>>)
    ensures
        match lookup_found(pair_seqs(found@), key@) {
            Some(v) => r is Some && r->0@ == v,
            None => r is None,
        },
{
    let mut i: usize = 0;
    assert(pair_seqs(found@).subrange(0, found@.len() as int) =~= pair_seqs(found@));
    while i < found.len()
        invariant
            i <= found@.len(),
            lookup_found(pair_seqs(found@), key@) == lookup_found(
                pair_seqs(found@).subrange(i as int, found@.len() as int),
                key@,
            ),
        decreases found@.len() - i,
    {
        let mut k: Vec<u8> = Vec::new();
        push_char_bytes(&mut k, found[i].0.as_slice());
        assert(k@ =~= char_bytes(found@[i as int].0@));
        proof {
            let rest = pair_seqs(found@).subrange(i as int, found@.len() as int);
            assert(rest[0] == (found@[i as int].0@, found@[i as int].1@));
            assert(rest.drop_first() =~= pair_seqs(found@).subrange(i + 1, found@.len() as int));
        }
        if bytes_equal(k.as_slice(), key) {
            let mut v: Vec<u8> = Vec::new();
            push_char_bytes(&mut v, found[i].1.as_slice());
            assert(v@ =~= char_bytes(found@[i as int].1@));
            return Some(v);
        }
        i = i + 1;
    }
    None
}


// ---------------------------------------------------------------------------
// Strategy selection and the compressed-payload envelope
// ---------------------------------------------------------------------------

#[derive(Debug, Clone, Copy, PartialEq, Eq, Structural)]
pub enum CompressionStrategy {
    Passthrough,
    ZstdDict { dict_id: u64 },
    ZstdRaw,
    Delta { base_item_id: u64 },
    Template { template_id: u64 },
    Columnar,
}

/// The strategy for one item: tiny payloads pass through; an update with
/// its previous version is a delta; JSON with a matching template uses it;
/// a trained dictionary is used next; large JSON or text is zstd-compressed;
/// anything else passes through.
pub open spec fn strategy_for(
    source_kind: SourceKind,
    len: nat,
    is_update: bool,
    has_previous_version: bool,
    available_dict: Option<DictionaryId>,
    matching_template: Option<u64>,
    previous_item_id: Option<u64>,
) -> CompressionStrategy {
    if len < 64 {
        CompressionStrategy::Passthrough
    } else if is_update && has_previous_version && previous_item_id is Some {
        CompressionStrategy::Delta { base_item_id: previous_item_id->0 }
    } else if matching_template is Some && source_kind == SourceKind::Json {
        CompressionStrategy::Template { template_id: matching_template->0 }
    } else if available_dict is Some {
        CompressionStrategy::ZstdDict { dict_id: dictionary_number(available_dict->0) }
    } else if len >= 256 && (source_kind == SourceKind::Json || source_kind == SourceKind::Text) {
        CompressionStrategy::ZstdRaw
    } else {
        CompressionStrategy::Passthrough
    }
}

/// What the strategy choice guarantees. Inputs under 64 bytes pass
/// through. Otherwise an update with its previous version and a base id is a
/// delta against that base; else JSON with a matching template uses the
/// template; else a trained dictionary is used; else JSON or text of at least
/// 256 bytes is zstd-compressed without a dictionary; anything else passes
/// through. The choice is never columnar, and each strategy is chosen only
/// when its preconditions hold.
pub proof fn lemma_strategy_rules(
    source_kind: SourceKind,
    len: nat,
    is_update: bool,
    has_previous_version: bool,
    available_dict: Option<DictionaryId>,
    matching_template: Option<u64>,
    previous_item_id: Option<u64>,
)
    ensures
        ({
            let s = strategy_for(
                source_kind,
                len,
                is_update,
                has_previous_version,
                available_dict,
                matching_template,
                previous_item_id,
            );
            let delta_ready = is_update && has_previous_version && previous_item_id is Some;
            let template_ready = source_kind == SourceKind::Json && matching_template is Some;
            let dict_number: u64 = match available_dict {
                Some(d) => d.0,
                None => 0,
            };
            let structured = source_kind == SourceKind::Json || source_kind == SourceKind::Text;
            &&& len < 64 ==> s == CompressionStrategy::Passthrough
            &&& (len >= 64 && delta_ready ==> s == CompressionStrategy::Delta { base_item_id: previous_item_id->0 })
            &&& (len >= 64 && !delta_ready && template_ready ==> s == CompressionStrategy::Template {
                template_id: matching_template->0,
            })
            &&& (len >= 64 && !delta_ready && !template_ready && available_dict is Some ==> s
                == CompressionStrategy::ZstdDict { dict_id: dict_number })
            &&& (len >= 256 && structured && !delta_ready && !template_ready && available_dict is None ==> s
                == CompressionStrategy::ZstdRaw)
            &&& ((len < 256 || !structured) && !delta_ready && !template_ready && available_dict is None ==> s
                == CompressionStrategy::Passthrough)
            &&& s != CompressionStrategy::Columnar
            &&& (s is Delta ==> len >= 64 && delta_ready && s->Delta_base_item_id == previous_item_id->0)
            &&& (s is Template ==> len >= 64 && template_ready && s->Template_template_id == matching_template->0)
            &&& (s is ZstdDict ==> len >= 64 && available_dict is Some && s->ZstdDict_dict_id == dict_number)
            &&& (s is ZstdRaw ==> len >= 256 && structured && available_dict is None)
        }),
{
}

/// The number of a dictionary id.
pub open spec fn dictionary_number(id: DictionaryId) -> u64 {
    id.0
}

pub fn select_strategy(
    source_kind: SourceKind,
    data: &[u8],
    is_update: bool,
    has_previous_version: bool,
    available_dict: Option<DictionaryId>,
    matching_template: Option<u64>,
    previous_item_id: Option<u64>,
) -> (s: CompressionStrategy)
    ensures
        s == strategy_for(
            source_kind,
            data@.len(),
            is_update,
            has_previous_version,
            available_dict,
            matching_template,
            previous_item_id,
        ),
{
    if data.len() < 64 {
        return CompressionStrategy::Passthrough;
    }
    if is_update && has_previous_version {
        match previous_item_id {
            Some(base_id) => {
                return CompressionStrategy::Delta { base_item_id: base_id };
            },
            None => {},
        }
    }
    match matching_template {
        Some(template_id) => {
            if source_kind == SourceKind::Json {
                return CompressionStrategy::Template { template_id };
            }
        },
        None => {},
    }
    match available_dict {
        Some(dict_id) => {
            return CompressionStrategy::ZstdDict { dict_id: dict_id.0 };
        },
        None => {},
    }
    if data.len() >= 256 && (source_kind == SourceKind::Json || source_kind == SourceKind::Text) {
        return CompressionStrategy::ZstdRaw;
    }
    CompressionStrategy::Passthrough
}

#[derive(Debug, Clone)]
pub struct CompressedPayload {
    pub strategy: CompressionStrategy,
    pub compressed: Vec<u8>,
    pub original_size: usize,
}

impl CompressedPayload {
    pub fn is_effective(&self) -> (b: bool)
        ensures
            b == (self.compressed@.len() < self.original_size),
    {
        self.compressed.len() < self.original_size
    }
}

/// The first byte of every compressed payload.
pub const COMPRESSION_MAGIC: u8 = 0xC0;

#[derive(Debug, Clone, Copy, PartialEq, Eq, Structural)]
pub enum CompressionTag {
    Passthrough,
    ZstdDict,
    ZstdRaw,
    Delta,
    Template,
    Columnar,
}

impl CompressionTag {
    pub open spec fn byte_spec(self) -> u8 {
        match self {
            CompressionTag::Passthrough => 0,
            CompressionTag::ZstdDict => 1,
            CompressionTag::ZstdRaw => 2,
            CompressionTag::Delta => 3,
            CompressionTag::Template => 4,
            CompressionTag::Columnar => 5,
        }
    }

    pub open spec fn from_byte_spec(byte: u8) -> Option<CompressionTag> {
        if byte == 0 {
            Some(CompressionTag::Passthrough)
        } else if byte == 1 {
            Some(CompressionTag::ZstdDict)
        } else if byte == 2 {
            Some(CompressionTag::ZstdRaw)
        } else if byte == 3 {
            Some(CompressionTag::Delta)
        } else if byte == 4 {
            Some(CompressionTag::Template)
        } else if byte == 5 {
            Some(CompressionTag::Columnar)
        } else {
            None
        }
    }

    pub fn from_byte(byte: u8) -> (t: Option<CompressionTag>)
        ensures
            t == CompressionTag::from_byte_spec(byte),
    {
        match byte {
            0 => Some(CompressionTag::Passthrough),
            1 => Some(CompressionTag::ZstdDict),
            2 => Some(CompressionTag::ZstdRaw),
            3 => Some(CompressionTag::Delta),
            4 => Some(CompressionTag::Template),
            5 => Some(CompressionTag::Columnar),
            _ => None,
        }
    }

    pub fn to_byte(self) -> (b: u8)
        ensures
            b == self.byte_spec(),
            CompressionTag::from_byte_spec(b) == Some(self),
    {
        match self {
            CompressionTag::Passthrough => 0,
            CompressionTag::ZstdDict => 1,
            CompressionTag::ZstdRaw => 2,
            CompressionTag::Delta => 3,
            CompressionTag::Template => 4,
            CompressionTag::Columnar => 5,
        }
    }
}

/// The envelope bytes: magic, tag, the strategy's identifier where it has
/// one, then the data.
pub open spec fn envelope_bytes(strategy: CompressionStrategy, data: Seq<u8>) -> Seq<u8> {
    match strategy {
        CompressionStrategy::Passthrough => seq![COMPRESSION_MAGIC, 0u8] + data,
        CompressionStrategy::ZstdDict { dict_id } => seq![COMPRESSION_MAGIC, 1u8] + u64_le(dict_id)
            + data,
        CompressionStrategy::ZstdRaw => seq![COMPRESSION_MAGIC, 2u8] + data,
        CompressionStrategy::Delta { base_item_id } => seq![COMPRESSION_MAGIC, 3u8] + u64_le(
            base_item_id,
        ) + data,
        CompressionStrategy::Template { template_id } => seq![COMPRESSION_MAGIC, 4u8] + u64_le(
            template_id,
        ) + data,
        CompressionStrategy::Columnar => seq![COMPRESSION_MAGIC, 5u8] + data,
    }
}

/// The slot values plainly encoded: none for empty data, else as many as
/// the first byte says, each behind its two-byte length.
pub open spec fn plain_slots(sd: Seq<u8>) -> Option<Seq<Seq<u8>>> {
    if sd.len() == 0 {
        Some(Seq::empty())
    } else {
        parse_slot_values(sd, 1, sd[0] as nat)
    }
}

/// What reconstructing a template from slot values gives.
pub open spec fn template_fill(t: StructuralTemplate, vs: Option<Seq<Seq<u8>>>) -> Result<Seq<u8>, CompressError> {
    match vs {
        None => Err(CompressError::SlotValueTruncated),
        Some(v) => if v.len() == t.keys@.len() {
            Ok(fill_pattern(t.pattern@, v, v.len()))
        } else {
            Err(CompressError::TemplateSlotCountMismatch { expected: t.keys@.len() as usize, actual: v.len() as usize })
        },
    }
}

/// What applying decoded delta fields (version, lengths, operations) to a base gives.
pub open spec fn delta_fields_apply(f: (u8, u32, u32, Seq<DeltaOpModel>), base: Seq<u8>) -> Result<Seq<u8>, CompressError> {
    if base.len() != f.1 {
        Err(CompressError::DeltaBaseLengthMismatch { expected: f.1 as usize, actual: base.len() as usize })
    } else {
        match apply_ops(f.3, base, f.3.len()) {
            Err(e) => Err(e),
            Ok(out) => if out.len() != f.2 {
                Err(CompressError::DeltaTargetLengthMismatch { expected: f.2 as usize, actual: out.len() as usize })
            } else {
                Ok(out)
            },
        }
    }
}

/// What applying decoded XOR delta fields (lengths, patches) to a base gives.
pub open spec fn xor_fields_apply(f: (u32, u32, Seq<(u32, u8)>), base: Seq<u8>) -> Result<Seq<u8>, CompressError> {
    if base.len() != f.0 {
        Err(CompressError::DeltaBaseLengthMismatch { expected: f.0 as usize, actual: base.len() as usize })
    } else {
        xor_fold(f.2, base)
    }
}

/// A delta payload made from a delta that rebuilds `target` from `base`
/// (as `BinaryDelta::compute` makes for inputs of at most `u32::MAX` bytes)
/// decodes against that base to `target`.
pub proof fn lemma_delta_payload_roundtrip(d: BinaryDelta, base: Seq<u8>, target: Seq<u8>)
    requires
        d.version == BINARY_DELTA_VERSION,
        ops_encodable(op_models(d.ops@)),
        d.original_len == base.len(),
        d.target_len == target.len(),
        apply_ops(op_models(d.ops@), base, d.ops@.len()) == Ok::<Seq<u8>, CompressError>(target),
    ensures
        delta_payload_decode(delta_bytes(d), base) == Ok::<Seq<u8>, CompressError>(target),
{
    lemma_binary_delta_encoding_roundtrip(d);
    assert(op_models(d.ops@).len() == d.ops@.len());
}

/// What a delta payload applied to its base gives: the first of a binary
/// delta, a zstd-compressed binary delta, an XOR delta, and a zstd-compressed
/// XOR or binary delta that decodes.
pub open spec fn delta_payload_decode(d: Seq<u8>, base: Seq<u8>) -> Result<Seq<u8>, CompressError> {
    match parse_delta(d) {
        Ok(f) => delta_fields_apply(f, base),
        Err(_) => match zstd_delta_spec(d) {
            Ok(f) => delta_fields_apply(f, base),
            Err(_) => match parse_xor_delta(d) {
                Ok(f) => xor_fields_apply(f, base),
                Err(_) => match zstd_content(d) {
                    Some(c) => if c.len() > MAX_DECOMPRESSED_BYTES {
                        Err(CompressError::DeltaInvalidTag(0xFF))
                    } else {
                        match parse_xor_delta(c) {
                            Ok(f) => xor_fields_apply(f, base),
                            Err(_) => match parse_delta(c) {
                                Ok(f) => delta_fields_apply(f, base),
                                Err(_) => Err(CompressError::DeltaInvalidTag(0xFF)),
                            },
                        }
                    },
                    None => Err(CompressError::DeltaInvalidTag(0xFF)),
                },
            },
        },
    }
}

/// `r` is the result of `f`: the same bytes, or the same error.
pub open spec fn result_is(r: Result<Vec<u8>, CompressError>, f: Result<Seq<u8>, CompressError>) -> bool {
    match f {
        Ok(out) => r is Ok && r->Ok_0@ == out,
        Err(e) => r == Err::<Vec<u8>, CompressError>(e),
    }
}

/// The slot values behind a flag byte: plain after a 0, zstd-compressed
/// (within the decompression limit) after a 1; none for empty data.
pub open spec fn compressed_slots(sd: Seq<u8>) -> Option<Seq<Seq<u8>>> {
    if sd.len() == 0 {
        Some(Seq::empty())
    } else if sd[0] == 0 {
        plain_slots(sd.subrange(1, sd.len() as int))
    } else if sd[0] == 1 {
        match zstd_content(sd.subrange(1, sd.len() as int)) {
            Some(c) => if c.len() <= MAX_DECOMPRESSED_BYTES { plain_slots(c) } else { None },
            None => None,
        }
    } else {
        None
    }
}

/// A template payload decodes to the template filled from the flagged slot
/// values when that works, and otherwise to the template filled from the
/// plain slot values, or the error doing so gives.
pub open spec fn template_decoded(t: StructuralTemplate, sd: Seq<u8>, r: Result<Vec<u8>, CompressError>) -> bool {
    let first = template_fill(t, compressed_slots(sd));
    if first is Ok {
        result_is(r, first)
    } else {
        result_is(r, template_fill(t, plain_slots(sd)))
    }
}

/// The envelope of data reads back its strategy's tag, its id and the data.
pub proof fn lemma_envelope_fields(strategy: CompressionStrategy, data: Seq<u8>)
    ensures
        ({
            let e = envelope_bytes(strategy, data);
            &&& e[0] == COMPRESSION_MAGIC
            &&& match strategy {
                CompressionStrategy::Passthrough => e[1] == 0 && e.subrange(2, e.len() as int) == data,
                CompressionStrategy::ZstdRaw => e[1] == 2 && e.subrange(2, e.len() as int) == data,
                CompressionStrategy::Columnar => e[1] == 5 && e.subrange(2, e.len() as int) == data,
                CompressionStrategy::ZstdDict { dict_id } => e[1] == 1 && u64_at(e, 2) == dict_id
                    && e.subrange(10, e.len() as int) == data,
                CompressionStrategy::Delta { base_item_id } => e[1] == 3 && u64_at(e, 2) == base_item_id
                    && e.subrange(10, e.len() as int) == data,
                CompressionStrategy::Template { template_id } => e[1] == 4 && u64_at(e, 2) == template_id
                    && e.subrange(10, e.len() as int) == data,
            }
        }),
{
    let e = envelope_bytes(strategy, data);
    match strategy {
        CompressionStrategy::Passthrough => {
            assert(e.subrange(2, e.len() as int) =~= data);
        },
        CompressionStrategy::ZstdRaw => {
            assert(e.subrange(2, e.len() as int) =~= data);
        },
        CompressionStrategy::Columnar => {
            assert(e.subrange(2, e.len() as int) =~= data);
        },
        CompressionStrategy::ZstdDict { dict_id } => {
            assert(e.subrange(10, e.len() as int) =~= data);
            assert(e.subrange(2, 10) =~= u64_le(dict_id));
            crate::wire::lemma_u64_le_roundtrip(dict_id, e, 2);
        },
        CompressionStrategy::Delta { base_item_id } => {
            assert(e.subrange(10, e.len() as int) =~= data);
            assert(e.subrange(2, 10) =~= u64_le(base_item_id));
            crate::wire::lemma_u64_le_roundtrip(base_item_id, e, 2);
        },
        CompressionStrategy::Template { template_id } => {
            assert(e.subrange(10, e.len() as int) =~= data);
            assert(e.subrange(2, 10) =~= u64_le(template_id));
            crate::wire::lemma_u64_le_roundtrip(template_id, e, 2);
        },
    }
}

/// Wraps compressed data in its self-describing envelope.
pub fn encode_compressed_payload(strategy: CompressionStrategy, compressed_data: &[u8]) -> (out: Vec<
    u8,
>)
    ensures
        out@ == envelope_bytes(strategy, compressed_data@),
{
    let mut out: Vec<u8> = Vec::new();
    out.push(COMPRESSION_MAGIC);
    match strategy {
        CompressionStrategy::Passthrough => {
            out.push(0);
        },
        CompressionStrategy::ZstdDict { dict_id } => {
            out.push(1);
            push_u64_le(&mut out, dict_id);
        },
        CompressionStrategy::ZstdRaw => {
            out.push(2);
        },
        CompressionStrategy::Delta { base_item_id } => {
            out.push(3);
            push_u64_le(&mut out, base_item_id);
        },
        CompressionStrategy::Template { template_id } => {
            out.push(4);
            push_u64_le(&mut out, template_id);
        },
        CompressionStrategy::Columnar => {
            out.push(5);
        },
    }
    append_bytes(&mut out, compressed_data);
    assert(out@ =~= envelope_bytes(strategy, compressed_data@));
    out
}

/// Whether the bytes start with the magic byte and a known tag.
pub fn starts_with_compression_tag(data: &[u8]) -> (b: bool)
    ensures
        b == (data@.len() >= 2 && data@[0] == COMPRESSION_MAGIC && CompressionTag::from_byte_spec(
            data@[1],
        ) is Some),
{
    if data.len() < 2 {
        return false;
    }
    data[0] == COMPRESSION_MAGIC && CompressionTag::from_byte(data[1]).is_some()
}

// ---------------------------------------------------------------------------
// Dictionaries
// ---------------------------------------------------------------------------

pub const MAX_DICT_SIZE: usize = 102400;
pub const MIN_SAMPLES_FOR_TRAINING: usize = 8;
pub const MIN_SAMPLE_BYTES_FOR_TRAINING: usize = 512;
pub const MAX_TRAINING_SAMPLES: usize = 256;
pub const MAX_INDIVIDUAL_SAMPLE_SIZE: usize = 32768;
/// The cap on the sample bytes kept per source kind.
pub const MAX_SAMPLE_BYTES: usize = 1048576;

/// The dictionary `zstd::dict::from_samples` trains from the samples.
pub uninterp spec fn zstd_trained(samples: Seq<Seq<u8>>, max_size: usize) -> Option<Seq<u8>>;

/// The frame the zstd stream encoder writes for `data` with dictionary `dict`.
pub uninterp spec fn zstd_dict_frame(dict: Seq<u8>, data: Seq<u8>, level: i32) -> Seq<u8>;

/// What the zstd stream decoder with dictionary `dict` reads out of `frame`.
pub uninterp spec fn zstd_dict_content(dict: Seq<u8>, frame: Seq<u8>) -> Option<Seq<u8>>;

/// The samples as byte sequences.
pub open spec fn slice_seqs(samples: Seq<&[u8]>) -> Seq<Seq<u8>> {
    samples.map_values(|x: &[u8]| x@)
}

/// Calls `zstd::dict::from_samples`: on success the dictionary it trains
/// from these samples within `max_size`.
#[verifier::external_body]
fn zstd_train_dictionary(samples: &[&[u8]], max_size: usize) -> (r: Option<Vec<u8>>)
    ensures
        match zstd_trained(slice_seqs(samples@), max_size) {
            Some(d) => r is Some && r->0@ == d,
            None => r is None,
        },
{
    zstd::dict::from_samples(samples, max_size).ok()
}

/// Compresses with a dictionary through the zstd stream encoder
/// (`Encoder::with_dictionary`, `write_all`, `finish`). On success the
/// frame decodes, with the same dictionary, to the data.
#[verifier::external_body]
fn zstd_compress_with_dict(dict: &[u8], data: &[u8], level: i32) -> (r: Result<Vec<u8>, CompressError>)
    ensures
        r is Ok ==> r->Ok_0@ == zstd_dict_frame(dict@, data@, level) && zstd_dict_content(
            dict@,
            r->Ok_0@,
        ) == Some(data@),
        r is Err ==> r->Err_0 is ZstdEncode,
{
    let mut encoder = zstd::stream::Encoder::with_dictionary(Vec::new(), level, dict).map_err(
        |e| CompressError::ZstdEncode(e.to_string()),
    )?;
    encoder.write_all(data).map_err(|e| CompressError::ZstdEncode(e.to_string()))?;
    encoder.finish().map_err(|e| CompressError::ZstdEncode(e.to_string()))
}

/// Decompresses with a dictionary through the zstd stream decoder
/// (`Decoder::with_dictionary`, `read_to_end`).
#[verifier::external_body]
pub(crate) fn zstd_decompress_with_dict(dict: &[u8], frame: &[u8]) -> (r: Result<Vec<u8>, CompressError>)
    ensures
        match zstd_dict_content(dict@, frame@) {
            Some(c) => r is Ok && r->Ok_0@ == c,
            None => r is Err && r->Err_0 is ZstdDecode,
        },
{
    let mut decoder = zstd::stream::Decoder::with_dictionary(frame, dict).map_err(
        |e| CompressError::ZstdDecode(e.to_string()),
    )?;
    let mut out = Vec::new();
    decoder.read_to_end(&mut out).map_err(|e| CompressError::ZstdDecode(e.to_string()))?;
    Ok(out)
}

#[derive(Debug, Clone)]
pub struct ZstdDictionary {
    pub dict_id: DictionaryId,
    pub dict_bytes: Vec<u8>,
    pub sample_count: usize,
    pub total_sample_bytes: usize,
    pub source_kind: SourceKind,
    pub version: u64,
}

/// The total length of the samples.
pub open spec fn total_len(samples: Seq<Seq<u8>>) -> nat
    decreases samples.len(),
{
    if samples.len() == 0 {
        0
    } else {
        total_len(samples.drop_last()) + samples.last().len()
    }
}

/// The samples a dictionary is trained on: those of at most
/// `MAX_INDIVIDUAL_SAMPLE_SIZE` bytes, the first `MAX_TRAINING_SAMPLES` of them.
pub open spec fn training_set(samples: Seq<Seq<u8>>) -> Seq<Seq<u8>> {
    let kept = samples.filter(|x: Seq<u8>| x.len() <= MAX_INDIVIDUAL_SAMPLE_SIZE);
    if kept.len() > MAX_TRAINING_SAMPLES {
        kept.take(MAX_TRAINING_SAMPLES as int)
    } else {
        kept
    }
}

impl ZstdDictionary {
    /// Trains a dictionary; none with fewer than eight samples, fewer than
    /// 512 sample bytes, fewer than eight usable samples, or when training
    /// fails or gives an empty dictionary.
    pub fn train(dict_id: DictionaryId, source_kind: SourceKind, samples: &[&[u8]], version: u64) -> (r:
        Option<ZstdDictionary>)
        requires
            total_len(slice_seqs(samples@)) <= usize::MAX,
        ensures
            ({
                let all = slice_seqs(samples@);
                let set = training_set(all);
                if samples@.len() < MIN_SAMPLES_FOR_TRAINING || total_len(all)
                    < MIN_SAMPLE_BYTES_FOR_TRAINING || set.len() < MIN_SAMPLES_FOR_TRAINING {
                    r is None
                } else {
                    match zstd_trained(set, MAX_DICT_SIZE) {
                        None => r is None,
                        Some(d) => if d.len() == 0 {
                            r is None
                        } else {
                            r is Some && r->0.dict_id == dict_id && r->0.dict_bytes@ == d
                                && r->0.sample_count == set.len() && r->0.total_sample_bytes
                                == total_len(all) && r->0.source_kind == source_kind
                                && r->0.version == version
                        },
                    }
                }
            }),
    {
        if samples.len() < MIN_SAMPLES_FOR_TRAINING {
            return None;
        }
        let mut total: usize = 0;
        let mut i: usize = 0;
        while i < samples.len()
            invariant
                i <= samples@.len(),
                total == total_len(slice_seqs(samples@.subrange(0, i as int))),
                total_len(slice_seqs(samples@)) <= usize::MAX,
            decreases samples@.len() - i,
        {
            proof {
                let sub = slice_seqs(samples@.subrange(0, i + 1));
                assert(sub.drop_last() =~= slice_seqs(samples@.subrange(0, i as int)));
                lemma_total_len_prefix(slice_seqs(samples@), i + 1);
                assert(slice_seqs(samples@).subrange(0, i + 1) =~= sub);
            }
            total = total + samples[i].len();
            i = i + 1;
        }
        assert(samples@.subrange(0, i as int) =~= samples@);
        if total < MIN_SAMPLE_BYTES_FOR_TRAINING {
            return None;
        }
        let mut training: Vec<&[u8]> = Vec::new();
        let mut j: usize = 0;
        let ghost all = slice_seqs(samples@);
        while j < samples.len() && training.len() < MAX_TRAINING_SAMPLES
            invariant
                j <= samples@.len(),
                all == slice_seqs(samples@),
                training@.len() <= MAX_TRAINING_SAMPLES,
                slice_seqs(training@) == all.subrange(0, j as int).filter(
                    |x: Seq<u8>| x.len() <= MAX_INDIVIDUAL_SAMPLE_SIZE,
                ),
            decreases samples@.len() - j,
        {
            proof {
                let pre = all.subrange(0, j as int);
                assert(all.subrange(0, j as int + 1) =~= pre.push(all[j as int]));
                pre.lemma_filter_push(all[j as int], |x: Seq<u8>| x.len() <= MAX_INDIVIDUAL_SAMPLE_SIZE);
            }
            if samples[j].len() <= MAX_INDIVIDUAL_SAMPLE_SIZE {
                training.push(samples[j]);
                assert(slice_seqs(training@) =~= all.subrange(0, j as int).filter(
                    |x: Seq<u8>| x.len() <= MAX_INDIVIDUAL_SAMPLE_SIZE,
                ).push(all[j as int]));
            }
            j = j + 1;
        }
        proof {
            lemma_training_set(all, slice_seqs(training@), j as nat);
        }
        if training.len() < MIN_SAMPLES_FOR_TRAINING {
            return None;
        }
        let dict_bytes = match zstd_train_dictionary(training.as_slice(), MAX_DICT_SIZE) {
            Some(d) => d,
            None => return None,
        };
        if dict_bytes.len() == 0 {
            return None;
        }
        Some(
            ZstdDictionary {
                dict_id,
                dict_bytes,
                sample_count: training.len(),
                total_sample_bytes: total,
                source_kind,
                version,
            },
        )
    }

    pub fn compress(&self, data: &[u8]) -> (r: Result<Vec<u8>, CompressError>)
        ensures
            r is Ok ==> r->Ok_0@ == zstd_dict_frame(self.dict_bytes@, data@, ZSTD_COMPRESSION_LEVEL)
                && zstd_dict_content(self.dict_bytes@, r->Ok_0@) == Some(data@),
            r is Err ==> r->Err_0 is ZstdEncode,
    {
        zstd_compress_with_dict(self.dict_bytes.as_slice(), data, ZSTD_COMPRESSION_LEVEL)
    }

    pub fn decompress(&self, data: &[u8]) -> (r: Result<Vec<u8>, CompressError>)
        ensures
            match zstd_dict_content(self.dict_bytes@, data@) {
                Some(c) => r is Ok && r->Ok_0@ == c,
                None => r is Err && r->Err_0 is ZstdDecode,
            },
    {
        zstd_decompress_with_dict(self.dict_bytes.as_slice(), data)
    }
}

proof fn lemma_total_len_prefix(all: Seq<Seq<u8>>, k: int)
    requires
        0 <= k <= all.len(),
    ensures
        total_len(all.subrange(0, k)) <= total_len(all),
    decreases all.len() - k,
{
    if k < all.len() {
        lemma_total_len_prefix(all, k + 1);
        assert(all.subrange(0, k + 1).drop_last() =~= all.subrange(0, k));
    } else {
        assert(all.subrange(0, k) =~= all);
    }
}

proof fn lemma_training_set(all: Seq<Seq<u8>>, training: Seq<Seq<u8>>, j: nat)
    requires
        j <= all.len(),
        training.len() <= MAX_TRAINING_SAMPLES,
        training == all.subrange(0, j as int).filter(|x: Seq<u8>| x.len() <= MAX_INDIVIDUAL_SAMPLE_SIZE),
        j == all.len() || training.len() == MAX_TRAINING_SAMPLES,
    ensures
        training_set(all) == training,
{
    let pred = |x: Seq<u8>| x.len() <= MAX_INDIVIDUAL_SAMPLE_SIZE;
    if j == all.len() {
        assert(all.subrange(0, j as int) =~= all);
    } else {
        lemma_filter_prefix_take(all, j, pred);
    }
}

/// The filter of a prefix is a prefix of the filter.
proof fn lemma_filter_prefix_take(all: Seq<Seq<u8>>, j: nat, pred: spec_fn(Seq<u8>) -> bool)
    requires
        j <= all.len(),
    ensures
        all.filter(pred).take(all.subrange(0, j as int).filter(pred).len() as int) == all.subrange(
            0,
            j as int,
        ).filter(pred),
        all.subrange(0, j as int).filter(pred).len() <= all.filter(pred).len(),
    decreases all.len() - j,
{
    if j == all.len() {
        assert(all.subrange(0, j as int) =~= all);
        assert(all.filter(pred).take(all.filter(pred).len() as int) =~= all.filter(pred));
    } else {
        lemma_filter_prefix_take(all, j + 1, pred);
        let pre = all.subrange(0, j as int);
        assert(all.subrange(0, j as int + 1) =~= pre.push(all[j as int]));
        pre.lemma_filter_push(all[j as int], pred);
        let f1 = pre.filter(pred);
        let f2 = all.subrange(0, j as int + 1).filter(pred);
        assert(all.filter(pred).take(f1.len() as int) =~= f2.take(f1.len() as int));
        assert(f2.take(f1.len() as int) =~= f1);
    }
}

/// The samples kept for one source kind, with their total length.
pub struct SampleBucket {
    samples: Vec<Vec<u8>>,
    total_bytes: usize,
}

impl SampleBucket {
    pub closed spec fn wf(&self) -> bool {
        &&& self.total_bytes == total_len(byte_seqs(self.samples@))
        &&& self.total_bytes <= MAX_SAMPLE_BYTES + MAX_INDIVIDUAL_SAMPLE_SIZE
    }

    pub closed spec fn contents(&self) -> Seq<Seq<u8>> {
        byte_seqs(self.samples@)
    }

    fn new() -> (b: Self)
        ensures
            b.wf(),
            b.contents().len() == 0,
    {
        let b = SampleBucket { samples: Vec::new(), total_bytes: 0 };
        assert(byte_seqs(b.samples@) =~= Seq::<Seq<u8>>::empty());
        b
    }

    /// Keeps the sample, then drops the oldest while more than
    /// `MAX_SAMPLE_BYTES` are kept and more than one sample remains.
    fn add(&mut self, data: &[u8])
        requires
            old(self).wf(),
            data@.len() <= MAX_INDIVIDUAL_SAMPLE_SIZE,
        ensures
            final(self).wf(),
            final(self).contents().len() > 0,
            final(self).contents().last() == data@,
            final(self).contents().is_suffix_of(old(self).contents().push(data@)),
            total_len(final(self).contents()) <= MAX_SAMPLE_BYTES || final(self).contents().len() == 1,
    {
        let sample = copy_range(data, 0, data.len());
        assert(sample@ =~= data@);
        let ghost before = byte_seqs(self.samples@);
        self.samples.push(sample);
        proof {
            assert(byte_seqs(self.samples@) =~= before.push(data@));
            assert(byte_seqs(self.samples@).drop_last() =~= before);
        }
        self.total_bytes = self.total_bytes + data.len();
        let ghost pushed = byte_seqs(self.samples@);
        proof {
            assert(pushed.is_suffix_of(pushed)) by {
                assert(pushed.subrange(0, pushed.len() as int) =~= pushed);
            }
        }
        while self.total_bytes > MAX_SAMPLE_BYTES && self.samples.len() > 1
            invariant
                self.total_bytes == total_len(byte_seqs(self.samples@)),
                self.samples@.len() >= 1,
                byte_seqs(self.samples@).last() == data@,
                byte_seqs(self.samples@).is_suffix_of(pushed),
                pushed == before.push(data@),
                self.total_bytes <= MAX_SAMPLE_BYTES + 2 * MAX_INDIVIDUAL_SAMPLE_SIZE,
            decreases self.samples@.len(),
        {
            let ghost all = byte_seqs(self.samples@);
            let removed = self.samples.remove(0);
            proof {
                lemma_total_len_drop_first(all);
                assert(byte_seqs(self.samples@) =~= all.drop_first());
                assert(all[0] == removed@);
                assert(all.drop_first().is_suffix_of(pushed)) by {
                    let off = pushed.len() - all.len();
                    assert(all.drop_first() =~= pushed.subrange(off + 1, pushed.len() as int));
                }
            }
            self.total_bytes = self.total_bytes - removed.len();
        }
        proof {
            if self.samples@.len() == 1 {
                assert(byte_seqs(self.samples@) =~= seq![data@]);
                assert(total_len(seq![data@]) == data@.len()) by {
                    reveal_with_fuel(total_len, 2);
                    assert(seq![data@].drop_last() =~= Seq::<Seq<u8>>::empty());
                    assert(seq![data@].last() == data@);
                }
            }
        }
    }
}

proof fn lemma_total_len_drop_first(all: Seq<Seq<u8>>)
    requires
        all.len() > 0,
    ensures
        total_len(all) == all[0].len() + total_len(all.drop_first()),
    decreases all.len(),
{
    if all.len() > 1 {
        lemma_total_len_drop_first(all.drop_last());
        assert(all.drop_last().drop_first() =~= all.drop_first().drop_last());
    } else {
        assert(all.drop_first() =~= Seq::<Seq<u8>>::empty());
        assert(all.drop_last() =~= Seq::<Seq<u8>>::empty());
    }
}

/// Trained dictionaries and the JSON and text samples kept for training them.
pub struct DictionaryManager {
    dictionaries: Vec<ZstdDictionary>,
    json_samples: SampleBucket,
    text_samples: SampleBucket,
    json_new_bytes: usize,
    text_new_bytes: usize,
    next_dict_id: u64,
}

/// New sample bytes of a kind that call for training its dictionary again.
pub const RETRAIN_THRESHOLD: usize = 32768;

/// The most recent dictionary for `kind`: the latest trained among those of
/// the highest version.
pub open spec fn latest_dictionary(dicts: Seq<ZstdDictionary>, kind: SourceKind) -> Option<int>
    decreases dicts.len(),
{
    if dicts.len() == 0 {
        None
    } else {
        let n = dicts.len() - 1;
        match latest_dictionary(dicts.drop_last(), kind) {
            None => if dicts[n].source_kind == kind {
                Some(n)
            } else {
                None
            },
            Some(i) => if dicts[n].source_kind == kind && dicts[n].version >= dicts[i].version {
                Some(n)
            } else {
                Some(i)
            },
        }
    }
}

/// The first dictionary of `kind` with id `dict_id`.
pub open spec fn dictionary_with_id(dicts: Seq<ZstdDictionary>, kind: SourceKind, dict_id: u64) -> Option<int>
    decreases dicts.len(),
{
    if dicts.len() == 0 {
        None
    } else {
        match dictionary_with_id(dicts.drop_last(), kind, dict_id) {
            Some(i) => Some(i),
            None => if dicts.last().source_kind == kind && dicts.last().dict_id.0 == dict_id {
                Some(dicts.len() - 1)
            } else {
                None
            },
        }
    }
}

/// A dictionary trained last with version one is the latest of its kind
/// when every dictionary has version one.
proof fn lemma_latest_after_push(dicts: Seq<ZstdDictionary>, d: ZstdDictionary, kind: SourceKind)
    requires
        d.source_kind == kind,
        d.version == 1,
        forall|i: int| 0 <= i < dicts.len() ==> (#[trigger] dicts[i]).version == 1,
    ensures
        latest_dictionary(dicts.push(d), kind) == Some(dicts.len() as int),
{
    assert(dicts.push(d).drop_last() =~= dicts);
    lemma_latest_in_range(dicts, kind);
}

proof fn lemma_latest_in_range(dicts: Seq<ZstdDictionary>, kind: SourceKind)
    ensures
        latest_dictionary(dicts, kind) matches Some(i) ==> 0 <= i < dicts.len(),
    decreases dicts.len(),
{
    if dicts.len() > 0 {
        lemma_latest_in_range(dicts.drop_last(), kind);
    }
}

impl DictionaryManager {
    pub closed spec fn wf(&self) -> bool {
        &&& self.json_samples.wf()
        &&& self.text_samples.wf()
        &&& forall|i: int| 0 <= i < self.dictionaries@.len() ==> (#[trigger] self.dictionaries@[i]).dict_id.0 < self.next_dict_id
        &&& forall|i: int| 0 <= i < self.dictionaries@.len() ==> (#[trigger] self.dictionaries@[i]).version == 1
    }

    /// The trained dictionaries, in the order they were trained.
    pub closed spec fn dicts(&self) -> Seq<ZstdDictionary> {
        self.dictionaries@
    }

    pub closed spec fn next_id(&self) -> u64 {
        self.next_dict_id
    }

    /// The sample bytes of `kind` taken in since its last training
    /// (saturating).
    pub closed spec fn new_bytes_for(&self, kind: SourceKind) -> usize {
        match kind {
            SourceKind::Json => self.json_new_bytes,
            SourceKind::Text => self.text_new_bytes,
            _ => 0,
        }
    }

    /// The samples kept for `kind`.
    pub closed spec fn samples_for(&self, kind: SourceKind) -> Seq<Seq<u8>> {
        match kind {
            SourceKind::Json => self.json_samples.contents(),
            SourceKind::Text => self.text_samples.contents(),
            _ => Seq::empty(),
        }
    }

    pub fn new() -> (m: Self)
        ensures
            m.wf(),
            m.dicts().len() == 0,
            m.next_id() == 1,
            forall|k: SourceKind| #[trigger] m.samples_for(k).len() == 0,
            forall|k: SourceKind| #[trigger] m.new_bytes_for(k) == 0,
    {
        DictionaryManager {
            dictionaries: Vec::new(),
            json_samples: SampleBucket::new(),
            text_samples: SampleBucket::new(),
            json_new_bytes: 0,
            text_new_bytes: 0,
            next_dict_id: 1,
        }
    }

    /// Keeps a JSON or text sample of at most `MAX_INDIVIDUAL_SAMPLE_SIZE`
    /// bytes as the newest of its kind, dropping the oldest of that kind
    /// while more than `MAX_SAMPLE_BYTES` are kept and more than one remains.
    pub fn add_sample(&mut self, source_kind: SourceKind, data: &[u8])
        requires
            old(self).wf(),
        ensures
            final(self).wf(),
            final(self).dicts() == old(self).dicts(),
            final(self).next_id() == old(self).next_id(),
            ({
                let kept = (source_kind == SourceKind::Json || source_kind == SourceKind::Text)
                    && data@.len() <= MAX_INDIVIDUAL_SAMPLE_SIZE;
                &&& forall|k: SourceKind|
                    k != source_kind || !kept ==> #[trigger] final(self).samples_for(k) == old(self).samples_for(k)
                &&& kept ==> final(self).samples_for(source_kind).len() > 0 && final(self).samples_for(source_kind).last() == data@ && final(self).samples_for(
                    source_kind,
                ).is_suffix_of(old(self).samples_for(source_kind).push(data@))
                &&& kept ==> (total_len(final(self).samples_for(source_kind)) <= MAX_SAMPLE_BYTES
                    || final(self).samples_for(source_kind).len() == 1)
                &&& forall|k: SourceKind|
                    k != source_kind || !kept ==> #[trigger] final(self).new_bytes_for(k) == old(self).new_bytes_for(k)
                &&& kept ==> final(self).new_bytes_for(source_kind) == (if old(self).new_bytes_for(source_kind) + data@.len() <= usize::MAX {
                    (old(self).new_bytes_for(source_kind) + data@.len()) as usize
                } else {
                    usize::MAX
                })
            }),
    {
        if data.len() > MAX_INDIVIDUAL_SAMPLE_SIZE {
            return;
        }
        match source_kind {
            SourceKind::Json => {
                self.json_samples.add(data);
                self.json_new_bytes = self.json_new_bytes.saturating_add(data.len());
            },
            SourceKind::Text => {
                self.text_samples.add(data);
                self.text_new_bytes = self.text_new_bytes.saturating_add(data.len());
            },
            _ => {},
        }
    }

    /// The most recent dictionary for a source kind.
    pub fn get_dictionary(&self, source_kind: SourceKind) -> (r: Option<&ZstdDictionary>)
        ensures
            match latest_dictionary(self.dicts(), source_kind) {
                Some(i) => r is Some && *r->0 == self.dicts()[i],
                None => r is None,
            },
    {
        let mut best: Option<usize> = None;
        let mut i: usize = 0;
        while i < self.dictionaries.len()
            invariant
                i <= self.dictionaries@.len(),
                best matches Some(b) ==> b < i,
                match latest_dictionary(self.dictionaries@.subrange(0, i as int), source_kind) {
                    Some(j) => best is Some && best->0 == j && j < i,
                    None => best is None,
                },
            decreases self.dictionaries@.len() - i,
        {
            proof {
                let sub = self.dictionaries@.subrange(0, i + 1);
                assert(sub.drop_last() =~= self.dictionaries@.subrange(0, i as int));
            }
            if self.dictionaries[i].source_kind == source_kind {
                match best {
                    None => {
                        best = Some(i);
                    },
                    Some(b) => {
                        if self.dictionaries[i].version >= self.dictionaries[b].version {
                            best = Some(i);
                        }
                    },
                }
            }
            i = i + 1;
        }
        assert(self.dictionaries@.subrange(0, i as int) =~= self.dictionaries@);
        match best {
            Some(b) => Some(&self.dictionaries[b]),
            None => None,
        }
    }

    /// Trains a dictionary for a kind once it has at least eight samples and
    /// 512 sample bytes, when the kind has no dictionary yet or at least
    /// `RETRAIN_THRESHOLD` new sample bytes came in since its last training;
    /// gives the new dictionary's id, which becomes the kind's latest.
    pub fn maybe_train(&mut self, source_kind: SourceKind) -> (r: Option<u64>)
        requires
            old(self).wf(),
            old(self).next_id() < u64::MAX,
        ensures
            final(self).wf(),
            forall|k: SourceKind| #[trigger] final(self).samples_for(k) == old(self).samples_for(k),
            forall|k: SourceKind| k != source_kind ==> #[trigger] final(self).new_bytes_for(k) == old(self).new_bytes_for(k),
            match r {
                Some(id) => id == old(self).next_id() && final(self).next_id() == id + 1
                    && final(self).new_bytes_for(source_kind) == 0
                    && latest_dictionary(final(self).dicts(), source_kind) == Some(old(self).dicts().len() as int)
                    && final(self).dicts().len() == old(self).dicts().len() + 1 && final(self).dicts().drop_last()
                    == old(self).dicts() && final(self).dicts().last().dict_id.0 == id
                    && final(self).dicts().last().source_kind == source_kind
                    && old(self).samples_for(source_kind).len() >= MIN_SAMPLES_FOR_TRAINING
                    && total_len(old(self).samples_for(source_kind)) >= MIN_SAMPLE_BYTES_FOR_TRAINING
                    && (latest_dictionary(old(self).dicts(), source_kind) is None || old(self).new_bytes_for(source_kind) >= RETRAIN_THRESHOLD),
                None => final(self).dicts() == old(self).dicts() && final(self).next_id() == old(self).next_id()
                    && final(self).new_bytes_for(source_kind) == old(self).new_bytes_for(source_kind),
            },
            ({
                let set = training_set(old(self).samples_for(source_kind));
                (source_kind == SourceKind::Json || source_kind == SourceKind::Text) && old(self).samples_for(source_kind).len() >= MIN_SAMPLES_FOR_TRAINING && total_len(
                    old(self).samples_for(source_kind),
                ) >= MIN_SAMPLE_BYTES_FOR_TRAINING && (latest_dictionary(old(self).dicts(), source_kind)
                    is None || old(self).new_bytes_for(source_kind) >= RETRAIN_THRESHOLD) && set.len() >= MIN_SAMPLES_FOR_TRAINING && zstd_trained(set, MAX_DICT_SIZE)
                    is Some && zstd_trained(set, MAX_DICT_SIZE)->0.len() > 0 ==> r is Some
            }),
    {
        let bucket = match source_kind {
            SourceKind::Json => &self.json_samples,
            SourceKind::Text => &self.text_samples,
            _ => {
                return None;
            },
        };
        let n = bucket.samples.len();
        if n < MIN_SAMPLES_FOR_TRAINING || bucket.total_bytes < MIN_SAMPLE_BYTES_FOR_TRAINING {
            return None;
        }
        let new_bytes = match source_kind {
            SourceKind::Json => self.json_new_bytes,
            _ => self.text_new_bytes,
        };
        if self.get_dictionary(source_kind).is_some() && new_bytes < RETRAIN_THRESHOLD {
            return None;
        }
        let mut refs: Vec<&[u8]> = Vec::new();
        let mut i: usize = 0;
        while i < n
            invariant
                i <= n,
                n == bucket.samples@.len(),
                slice_seqs(refs@) == byte_seqs(bucket.samples@.subrange(0, i as int)),
            decreases n - i,
        {
            refs.push(bucket.samples[i].as_slice());
            proof {
                assert(byte_seqs(bucket.samples@.subrange(0, i + 1)) =~= byte_seqs(
                    bucket.samples@.subrange(0, i as int),
                ).push(bucket.samples@[i as int]@));
                assert(slice_seqs(refs@) =~= byte_seqs(bucket.samples@.subrange(0, i as int)).push(
                    bucket.samples@[i as int]@,
                ));
            }
            i = i + 1;
        }
        assert(bucket.samples@.subrange(0, i as int) =~= bucket.samples@);
        let dict_id = DictionaryId(self.next_dict_id);
        let dict = match ZstdDictionary::train(dict_id, source_kind, refs.as_slice(), 1) {
            Some(d) => d,
            None => return None,
        };
        self.next_dict_id = self.next_dict_id + 1;
        let id = dict.dict_id.0;
        self.dictionaries.push(dict);
        match source_kind {
            SourceKind::Json => {
                self.json_new_bytes = 0;
            },
            _ => {
                self.text_new_bytes = 0;
            },
        }
        assert(self.dictionaries@.drop_last() =~= old(self).dictionaries@);
        proof {
            lemma_latest_after_push(old(self).dictionaries@, self.dictionaries@.last(), source_kind);
        }
        Some(id)
    }

    /// Compresses with the most recent dictionary of the kind, if there is one.
    pub fn compress_with_dict(&self, source_kind: SourceKind, data: &[u8]) -> (r: Option<
        Result<Vec<u8>, CompressError>,
    >)
        ensures
            match latest_dictionary(self.dicts(), source_kind) {
                None => r is None,
                Some(i) => r is Some && (r->0 is Ok ==> r->0->Ok_0@ == zstd_dict_frame(
                    self.dicts()[i].dict_bytes@,
                    data@,
                    ZSTD_COMPRESSION_LEVEL,
                )),
            },
    {
        match self.get_dictionary(source_kind) {
            Some(dict) => Some(dict.compress(data)),
            None => None,
        }
    }

    /// Decompresses with the dictionary of that kind and id.
    pub fn decompress_with_dict(&self, source_kind: SourceKind, dict_id: u64, data: &[u8]) -> (r:
        Result<Vec<u8>, CompressError>)
        ensures
            match dictionary_with_id(self.dicts(), source_kind, dict_id) {
                None => r == Err::<Vec<u8>, CompressError>(
                    CompressError::DictionaryNotFound { source_kind, dict_id },
                ),
                Some(i) => match zstd_dict_content(self.dicts()[i].dict_bytes@, data@) {
                    Some(c) => r is Ok && r->Ok_0@ == c,
                    None => r is Err,
                },
            },
    {
        let mut i: usize = 0;
        while i < self.dictionaries.len()
            invariant
                i <= self.dictionaries@.len(),
                dictionary_with_id(self.dictionaries@.subrange(0, i as int), source_kind, dict_id) is None,
            decreases self.dictionaries@.len() - i,
        {
            proof {
                assert(self.dictionaries@.subrange(0, i + 1).drop_last() =~= self.dictionaries@.subrange(
                    0,
                    i as int,
                ));
            }
            if self.dictionaries[i].source_kind == source_kind && self.dictionaries[i].dict_id.0
                == dict_id {
                proof {
                    lemma_dictionary_with_id_prefix(self.dictionaries@, i + 1, source_kind, dict_id);
                }
                return self.dictionaries[i].decompress(data);
            }
            i = i + 1;
        }
        assert(self.dictionaries@.subrange(0, i as int) =~= self.dictionaries@);
        Err(CompressError::DictionaryNotFound { source_kind, dict_id })
    }

    pub fn dictionary_count(&self) -> (n: usize)
        ensures
            n == self.dicts().len(),
    {
        self.dictionaries.len()
    }
}

proof fn lemma_dictionary_with_id_prefix(dicts: Seq<ZstdDictionary>, k: int, kind: SourceKind, id: u64)
    requires
        0 < k <= dicts.len(),
        dictionary_with_id(dicts.subrange(0, k), kind, id) is Some,
    ensures
        dictionary_with_id(dicts, kind, id) == dictionary_with_id(dicts.subrange(0, k), kind, id),
    decreases dicts.len() - k,
{
    if k < dicts.len() {
        assert(dicts.subrange(0, k + 1).drop_last() =~= dicts.subrange(0, k));
        lemma_dictionary_with_id_prefix(dicts, k + 1, kind, id);
    } else {
        assert(dicts.subrange(0, k) =~= dicts);
    }
}


// ---------------------------------------------------------------------------
// Template registry
// ---------------------------------------------------------------------------

/// What `extract_values` gives for this template and input.
pub open spec fn extract_spec(t: StructuralTemplate, json: Seq<u8>) -> Option<Seq<Seq<u8>>> {
    match object_inner(json) {
        None => None,
        Some(inner) => {
            let found = found_pairs(inner);
            if found.len() != t.keys@.len() {
                None
            } else {
                values_for_keys(found, byte_seqs(t.keys@))
            }
        },
    }
}

/// The first listed id whose registered template has exactly these keys.
pub open spec fn first_same_keys(ids: Seq<u64>, templates: Map<u64, StructuralTemplate>, keys: Seq<Seq<u8>>) -> Option<u64>
    decreases ids.len(),
{
    if ids.len() == 0 {
        None
    } else if templates.contains_key(ids[0]) && byte_seqs(templates[ids[0]].keys@) == keys {
        Some(ids[0])
    } else {
        first_same_keys(ids.drop_first(), templates, keys)
    }
}

proof fn lemma_first_same_keys_registered(ids: Seq<u64>, templates: Map<u64, StructuralTemplate>, keys: Seq<Seq<u8>>)
    ensures
        first_same_keys(ids, templates, keys) matches Some(id) ==> templates.contains_key(id),
    decreases ids.len(),
{
    if ids.len() > 0 {
        lemma_first_same_keys_registered(ids.drop_first(), templates, keys);
    }
}

/// The first listed id whose registered template extracts values from `json`.
pub open spec fn first_extracting(ids: Seq<u64>, templates: Map<u64, StructuralTemplate>, json: Seq<u8>) -> Option<(u64, Seq<Seq<u8>>)>
    decreases ids.len(),
{
    if ids.len() == 0 {
        None
    } else if templates.contains_key(ids[0]) && extract_spec(templates[ids[0]], json) is Some {
        Some((ids[0], extract_spec(templates[ids[0]], json)->0))
    } else {
        first_extracting(ids.drop_first(), templates, json)
    }
}

/// `r` holds this id and these values.
pub open spec fn match_found(r: Option<(u64, Vec<Vec<u8>>)>, id: u64, vs: Seq<Seq<u8>>) -> bool {
    match r {
        Some((rid, rvs)) => rid == id && byte_seqs(rvs@) == vs,
        None => false,
    }
}

/// The keys (as text) and the pattern parts of a JSON object that a
/// template can be made of; `None` when the source is not JSON or the data is
/// not an object with keys.
pub open spec fn registration_keys(source_kind: SourceKind, data: Seq<u8>) -> Option<(Seq<Seq<u8>>, Seq<u8>)> {
    if source_kind != SourceKind::Json {
        None
    } else {
        match object_inner(data) {
            None => None,
            Some(inner) => {
                let st = key_scan(inner);
                if st.keys.len() == 0 {
                    None
                } else {
                    Some((key_texts(st.keys), st.parts))
                }
            },
        }
    }
}

/// `t` is `before` with its match count one higher (wrapping).
pub open spec fn counted_once_more(t: StructuralTemplate, before: StructuralTemplate) -> bool {
    &&& t.template_id == before.template_id
    &&& t.source_kind == before.source_kind
    &&& t.keys@ == before.keys@
    &&& t.pattern@ == before.pattern@
    &&& t.keys_hash == before.keys_hash
    &&& t.match_count == before.match_count.wrapping_add(1)
}

/// `t` is a fresh JSON template with this id, these keys and these pattern parts.
pub open spec fn new_template(t: StructuralTemplate, id: u64, keys: Seq<Seq<u8>>, parts: Seq<u8>) -> bool {
    &&& t.template_id == id
    &&& t.source_kind == SourceKind::Json
    &&& byte_seqs(t.keys@) == keys
    &&& t.pattern@ == seq![0x7Bu8] + parts + seq![0x7Du8]
    &&& t.keys_hash == fnv1a(join_keys(keys))
    &&& t.match_count == 0
}

/// Registered templates by id, and the ids registered under each key hash.
pub struct TemplateRegistry {
    templates: U64Map<StructuralTemplate>,
    hash_index: U64Map<Vec<u64>>,
    next_template_id: u64,
}

impl TemplateRegistry {
    pub closed spec fn wf(&self) -> bool {
        &&& self.templates.wf()
        &&& self.hash_index.wf()
        &&& forall|k: u64| #[trigger] self.templates.map().contains_key(k) ==> k < self.next_template_id
    }

    pub closed spec fn templates_map(&self) -> Map<u64, StructuralTemplate> {
        self.templates.map()
    }

    /// The ids registered under a key hash.
    pub closed spec fn ids_for(&self, hash: u64) -> Seq<u64> {
        if self.hash_index.map().contains_key(hash) {
            self.hash_index.map()[hash]@
        } else {
            Seq::empty()
        }
    }

    pub closed spec fn next_id(&self) -> u64 {
        self.next_template_id
    }

    pub closed spec fn count(&self) -> nat {
        self.templates@.len()
    }

    pub fn new() -> (r: Self)
        ensures
            r.wf(),
            r.templates_map() == Map::<u64, StructuralTemplate>::empty(),
            r.next_id() == 1,
            r.count() == 0,
            forall|h: u64| #[trigger] r.ids_for(h).len() == 0,
    {
        TemplateRegistry { templates: U64Map::new(), hash_index: U64Map::new(), next_template_id: 1 }
    }

    fn same_keys_in(&self, ids: &Vec<u64>, keys: &Vec<Vec<u8>>) -> (r: Option<u64>)
        requires
            self.wf(),
        ensures
            r == first_same_keys(ids@, self.templates_map(), byte_seqs(keys@)),
    {
        let mut i: usize = 0;
        assert(ids@.subrange(0, ids@.len() as int) =~= ids@);
        while i < ids.len()
            invariant
                self.wf(),
                i <= ids@.len(),
                first_same_keys(ids@, self.templates_map(), byte_seqs(keys@)) == first_same_keys(
                    ids@.subrange(i as int, ids@.len() as int),
                    self.templates_map(),
                    byte_seqs(keys@),
                ),
            decreases ids@.len() - i,
        {
            let ghost rest = ids@.subrange(i as int, ids@.len() as int);
            proof {
                assert(rest[0] == ids@[i as int]);
                assert(rest.drop_first() =~= ids@.subrange(i + 1, ids@.len() as int));
            }
            match self.templates.get(ids[i]) {
                Some(existing) => {
                    if byte_lists_equal(&existing.keys, keys) {
                        return Some(ids[i]);
                    }
                },
                None => {},
            }
            i = i + 1;
        }
        None
    }

    /// Registers the template of a JSON object, or counts one more match of
    /// a registered template with the same keys; gives the template's id.
    pub fn try_register(&mut self, source_kind: SourceKind, data: &[u8]) -> (r: Option<u64>)
        requires
            old(self).wf(),
            old(self).next_id() < u64::MAX,
        ensures
            final(self).wf(),
            match registration_keys(source_kind, data@) {
                None => r is None && *final(self) == *old(self),
                Some((keys, parts)) => {
                    let hash = fnv1a(join_keys(keys));
                    match first_same_keys(old(self).ids_for(hash), old(self).templates_map(), keys) {
                        Some(id) => {
                            &&& r == Some(id)
                            &&& final(self).next_id() == old(self).next_id()
                            &&& final(self).templates_map().dom() == old(self).templates_map().dom()
                            &&& (forall|k: u64| k != id ==> #[trigger] final(self).templates_map()[k]
                                == old(self).templates_map()[k])
                            &&& counted_once_more(
                                final(self).templates_map()[id],
                                old(self).templates_map()[id],
                            )
                            &&& (forall|h: u64| #[trigger] final(self).ids_for(h) == old(self).ids_for(h))
                            &&& final(self).count() == old(self).count()
                        },
                        None => {
                            let id = old(self).next_id();
                            &&& r == Some(id)
                            &&& final(self).next_id() == id + 1
                            &&& final(self).templates_map().dom() == old(self).templates_map().dom().insert(id)
                            &&& (forall|k: u64| k != id ==> #[trigger] final(self).templates_map()[k]
                                == old(self).templates_map()[k])
                            &&& new_template(final(self).templates_map()[id], id, keys, parts)
                            &&& final(self).ids_for(hash) == old(self).ids_for(hash).push(id)
                            &&& (forall|h: u64| h != hash ==> #[trigger] final(self).ids_for(h) == old(self).ids_for(h))
                            &&& final(self).count() == old(self).count() + 1
                        },
                    }
                },
            },
    {
        if source_kind != SourceKind::Json {
            return None;
        }
        let template = match StructuralTemplate::from_json(data, 0) {
            Some(t) => t,
            None => return None,
        };
        let hash = template.keys_hash;
        let existing_id = match self.hash_index.get(hash) {
            Some(ids) => self.same_keys_in(ids, &template.keys),
            None => {
                assert(self.ids_for(hash) =~= Seq::<u64>::empty());
                None
            },
        };
        match existing_id {
            Some(id) => {
                proof {
                    lemma_first_same_keys_registered(self.ids_for(hash), self.templates_map(), byte_seqs(template.keys@));
                }
                let ghost before = *self;
                let mut existing = match self.templates.remove(id) {
                    Some(t) => t,
                    None => {
                        assert(false);
                        return None;
                    },
                };
                existing.match_count = existing.match_count.wrapping_add(1);
                assert(!self.templates.map().contains_key(id));
                assert(!has_key(self.templates@, id));
                self.templates.insert(id, existing);
                proof {
                    assert(self.templates_map() =~= before.templates_map().insert(id, existing));
                    assert(self.templates@.len() == before.templates@.len());
                }
                Some(id)
            },
            None => {
                let id = self.next_template_id;
                self.next_template_id = self.next_template_id + 1;
                let mut template = template;
                template.template_id = id;
                let ghost before = *self;
                let mut ids = match self.hash_index.remove(hash) {
                    Some(v) => v,
                    None => Vec::new(),
                };
                ids.push(id);
                self.hash_index.insert(hash, ids);
                assert(!self.templates_map().contains_key(id));
                self.templates.insert(id, template);
                proof {
                    assert(self.templates_map() =~= before.templates_map().insert(id, template));
                    assert forall|h: u64| h != hash implies #[trigger] self.ids_for(h) == before.ids_for(h) by {
                        assert(self.hash_index.map().contains_key(h) == before.hash_index.map().contains_key(h));
                    }
                }
                Some(id)
            },
        }
    }

    /// What a lookup gives: nothing unless the source is JSON whose top-level
    /// object has keys; else the first id registered under the hash of those
    /// keys whose template extracts values from the data, with those values.
    pub open spec fn match_spec(&self, source_kind: SourceKind, data: Seq<u8>) -> Option<(u64, Seq<Seq<u8>>)> {
        match registration_keys(source_kind, data) {
            None => None,
            Some((keys, parts)) => first_extracting(
                self.ids_for(fnv1a(join_keys(keys))),
                self.templates_map(),
                data,
            ),
        }
    }

    /// The first template registered under the data's key hash that
    /// extracts values from it, with those values.
    pub fn find_match(&self, source_kind: SourceKind, data: &[u8]) -> (r: Option<(u64, Vec<Vec<u8>>)>)
        requires
            self.wf(),
        ensures
            match self.match_spec(source_kind, data@) {
                None => r is None,
                Some((id, vs)) => match_found(r, id, vs),
            },
    {
        if source_kind != SourceKind::Json {
            return None;
        }
        let temp_hash = match StructuralTemplate::from_json(data, 0) {
            Some(t) => t.keys_hash,
            None => return None,
        };
        let ids = match self.hash_index.get(temp_hash) {
            Some(ids) => ids,
            None => {
                assert(self.ids_for(temp_hash) =~= Seq::<u64>::empty());
                return None;
            },
        };
        let mut i: usize = 0;
        assert(ids@.subrange(0, ids@.len() as int) =~= ids@);
        while i < ids.len()
            invariant
                self.wf(),
                i <= ids@.len(),
                self.match_spec(source_kind, data@) == first_extracting(
                    ids@.subrange(i as int, ids@.len() as int),
                    self.templates_map(),
                    data@,
                ),
            decreases ids@.len() - i,
        {
            let ghost rest = ids@.subrange(i as int, ids@.len() as int);
            proof {
                assert(rest[0] == ids@[i as int]);
                assert(rest.drop_first() =~= ids@.subrange(i + 1, ids@.len() as int));
            }
            match self.templates.get(ids[i]) {
                Some(template) => {
                    match template.extract_values(data) {
                        Some(values) => {
                            assert(extract_spec(*template, data@) == Some(byte_seqs(values@)));
                            return Some((ids[i], values));
                        },
                        None => {},
                    }
                },
                None => {},
            }
            i = i + 1;
        }
        None
    }

    pub fn get_template(&self, template_id: u64) -> (r: Option<&StructuralTemplate>)
        requires
            self.wf(),
        ensures
            match r {
                Some(t) => self.templates_map().contains_key(template_id) && *t
                    == self.templates_map()[template_id],
                None => !self.templates_map().contains_key(template_id),
            },
    {
        self.templates.get(template_id)
    }

    pub fn template_count(&self) -> (n: usize)
        ensures
            n == self.count(),
    {
        self.templates.len()
    }
}

/// A template definition sent ahead of the payloads that use it.
#[derive(Debug, Clone, PartialEq, Eq)]
pub struct TemplateSyncPayload {
    pub template: StructuralTemplate,
    pub sync_version: u64,
}

impl TemplateSyncPayload {
    pub fn new(template: StructuralTemplate, sync_version: u64) -> (p: Self)
        ensures
            p.template == template,
            p.sync_version == sync_version,
    {
        TemplateSyncPayload { template, sync_version }
    }
}

/// A template of an object whose keys may be paths into nested objects.
#[derive(Debug, Clone, PartialEq, Eq)]
pub struct NestedStructuralTemplate {
    pub template_id: u64,
    pub keys: Vec<Vec<u8>>,
    pub pattern: Vec<u8>,
    pub keys_hash: u64,
    pub match_count: u32,
}

/// The state of the nested key scanner: like the flat one, and one level
/// deeper inside an object that is the value of a top-level key, whose keys
/// are named `outer.inner`.
pub struct NestScan {
    pub in_string: bool,
    pub depth: nat,
    pub key: Seq<u8>,
    pub collecting_key: bool,
    pub after_colon0: bool,
    pub after_colon1: bool,
    pub outer: Seq<u8>,
    pub pending: bool,
    pub nested: bool,
    pub first_pair: bool,
    pub keys: Seq<Seq<u8>>,
    pub parts: Seq<u8>,
}

pub open spec fn nest_scan_start() -> NestScan {
    NestScan {
        in_string: false,
        depth: 0,
        key: Seq::empty(),
        collecting_key: false,
        after_colon0: false,
        after_colon1: false,
        outer: Seq::empty(),
        pending: false,
        nested: false,
        first_pair: true,
        keys: Seq::empty(),
        parts: Seq::empty(),
    }
}

/// The scanner after recording the key `raw`: its text joins the keys, and
/// a `"key":{}` placeholder the pattern.
pub open spec fn nest_emit(st: NestScan, raw: Seq<u8>) -> NestScan {
    NestScan {
        keys: st.keys.push(char_bytes(raw)),
        parts: st.parts + (if st.first_pair { Seq::empty() } else { seq![0x2Cu8] }) + seq![0x22u8] + char_bytes(raw)
            + seq![0x22u8, 0x3Au8, 0x7Bu8, 0x7Du8],
        first_pair: false,
        ..st
    }
}

pub open spec fn is_space(ch: u8) -> bool {
    ch == 0x20 || ch == 0x09 || ch == 0x0A || ch == 0x0D
}

/// One byte of the nested scanner. A top-level key is recorded when its
/// value starts, unless that value is an object: then the object's own keys
/// are recorded as `outer.inner` instead. Strings are tracked at the top
/// level and inside such an object; brackets change the depth.
pub open spec fn nest_scan_step(st: NestScan, ch: u8) -> NestScan {
    let tracked_level = st.depth == 0 || (st.depth == 1 && st.nested);
    if ch == 0x22 && tracked_level {
        if !st.in_string {
            if st.depth == 0 {
                let st2 = if st.pending { NestScan { pending: false, ..nest_emit(st, st.outer) } } else { st };
                NestScan { in_string: true, collecting_key: !st.after_colon0, key: Seq::empty(), ..st2 }
            } else {
                NestScan { in_string: true, collecting_key: !st.after_colon1, key: Seq::empty(), ..st }
            }
        } else {
            NestScan { in_string: false, collecting_key: false, ..st }
        }
    } else if st.in_string && st.collecting_key {
        NestScan { key: st.key.push(ch), ..st }
    } else if st.in_string {
        st
    } else if ch == 0x3A && st.depth == 0 {
        NestScan { after_colon0: true, outer: st.key, pending: true, ..st }
    } else if ch == 0x3A && st.depth == 1 && st.nested {
        NestScan { after_colon1: true, ..nest_emit(st, st.outer + seq![0x2Eu8] + st.key) }
    } else if ch == 0x2C && st.depth == 0 {
        NestScan { after_colon0: false, pending: false, ..st }
    } else if ch == 0x2C && st.depth == 1 && st.nested {
        NestScan { after_colon1: false, ..st }
    } else if ch == 0x7B || ch == 0x5B {
        if st.depth == 0 && st.pending && ch == 0x7B {
            NestScan { depth: 1, pending: false, nested: true, after_colon1: false, ..st }
        } else if st.depth == 0 && st.pending {
            NestScan { depth: 1, pending: false, nested: false, ..nest_emit(st, st.outer) }
        } else if st.depth == 0 {
            NestScan { depth: 1, nested: false, ..st }
        } else {
            NestScan { depth: st.depth + 1, ..st }
        }
    } else if ch == 0x7D || ch == 0x5D {
        if st.depth <= 1 {
            NestScan { depth: 0, nested: false, ..st }
        } else {
            NestScan { depth: (st.depth - 1) as nat, ..st }
        }
    } else if st.depth == 0 && st.pending && !is_space(ch) {
        NestScan { pending: false, ..nest_emit(st, st.outer) }
    } else {
        st
    }
}

pub open spec fn nest_scan(bs: Seq<u8>) -> NestScan
    decreases bs.len(),
{
    if bs.len() == 0 {
        nest_scan_start()
    } else {
        nest_scan_step(nest_scan(bs.drop_last()), bs.last())
    }
}

/// The nested scanner's state as it runs.
struct NestScanner {
    in_string: bool,
    depth: usize,
    key: Vec<u8>,
    collecting_key: bool,
    after_colon0: bool,
    after_colon1: bool,
    outer: Vec<u8>,
    pending: bool,
    nested: bool,
    first_pair: bool,
    keys: Vec<Vec<u8>>,
    parts: Vec<u8>,
}

spec fn nest_view(s: NestScanner) -> NestScan {
    NestScan {
        in_string: s.in_string,
        depth: s.depth as nat,
        key: s.key@,
        collecting_key: s.collecting_key,
        after_colon0: s.after_colon0,
        after_colon1: s.after_colon1,
        outer: s.outer@,
        pending: s.pending,
        nested: s.nested,
        first_pair: s.first_pair,
        keys: byte_seqs(s.keys@),
        parts: s.parts@,
    }
}

impl NestScanner {
    fn emit(&mut self, raw: &[u8])
        ensures
            nest_view(*final(self)) == nest_emit(nest_view(*old(self)), raw@),
    {
        if !self.first_pair {
            self.parts.push(0x2C);
        }
        self.parts.push(0x22);
        push_char_bytes(&mut self.parts, raw);
        self.parts.push(0x22);
        self.parts.push(0x3A);
        self.parts.push(0x7B);
        self.parts.push(0x7D);
        let mut encoded: Vec<u8> = Vec::new();
        push_char_bytes(&mut encoded, raw);
        assert(encoded@ =~= char_bytes(raw@));
        let ghost before = byte_seqs(self.keys@);
        self.keys.push(encoded);
        assert(byte_seqs(self.keys@) =~= before.push(char_bytes(raw@)));
        self.first_pair = false;
        assert(nest_view(*self).parts =~= nest_emit(nest_view(*old(self)), raw@).parts);
    }

    #[verifier::rlimit(40)]
    fn step(&mut self, ch: u8)
        requires
            old(self).depth < usize::MAX,
        ensures
            nest_view(*final(self)) == nest_scan_step(nest_view(*old(self)), ch),
            final(self).depth <= old(self).depth + 1,
    {
        let tracked_level = self.depth == 0 || (self.depth == 1 && self.nested);
        if ch == 0x22 && tracked_level {
            if !self.in_string {
                if self.depth == 0 {
                    if self.pending {
                        let outer = copy_range(self.outer.as_slice(), 0, self.outer.len());
                        assert(outer@ =~= self.outer@);
                        self.emit(outer.as_slice());
                        self.pending = false;
                    }
                    self.in_string = true;
                    self.collecting_key = !self.after_colon0;
                    self.key = Vec::new();
                } else {
                    self.in_string = true;
                    self.collecting_key = !self.after_colon1;
                    self.key = Vec::new();
                }
            } else {
                self.in_string = false;
                self.collecting_key = false;
            }
        } else if self.in_string && self.collecting_key {
            self.key.push(ch);
        } else if self.in_string {
        } else if ch == 0x3A && self.depth == 0 {
            self.after_colon0 = true;
            self.outer = copy_range(self.key.as_slice(), 0, self.key.len());
            assert(self.outer@ =~= self.key@);
            self.pending = true;
        } else if ch == 0x3A && self.depth == 1 && self.nested {
            let mut full = copy_range(self.outer.as_slice(), 0, self.outer.len());
            full.push(0x2E);
            append_bytes(&mut full, self.key.as_slice());
            assert(full@ =~= self.outer@ + seq![0x2Eu8] + self.key@);
            self.emit(full.as_slice());
            self.after_colon1 = true;
        } else if ch == 0x2C && self.depth == 0 {
            self.after_colon0 = false;
            self.pending = false;
        } else if ch == 0x2C && self.depth == 1 && self.nested {
            self.after_colon1 = false;
        } else if ch == 0x7B || ch == 0x5B {
            if self.depth == 0 && self.pending && ch == 0x7B {
                self.depth = 1;
                self.pending = false;
                self.nested = true;
                self.after_colon1 = false;
            } else if self.depth == 0 && self.pending {
                let outer = copy_range(self.outer.as_slice(), 0, self.outer.len());
                assert(outer@ =~= self.outer@);
                self.emit(outer.as_slice());
                self.depth = 1;
                self.pending = false;
                self.nested = false;
            } else if self.depth == 0 {
                self.depth = 1;
                self.nested = false;
            } else {
                self.depth = self.depth + 1;
            }
        } else if ch == 0x7D || ch == 0x5D {
            if self.depth <= 1 {
                self.depth = 0;
                self.nested = false;
            } else {
                self.depth = self.depth - 1;
            }
        } else if self.depth == 0 && self.pending && !(ch == 0x20 || ch == 0x09 || ch == 0x0A || ch == 0x0D) {
            let outer = copy_range(self.outer.as_slice(), 0, self.outer.len());
            assert(outer@ =~= self.outer@);
            self.emit(outer.as_slice());
            self.pending = false;
        }
    }
}

impl NestedStructuralTemplate {
    /// The template of an object with one level of nesting flattened: each
    /// top-level key whose value is an object gives its own keys as
    /// `outer.inner`, every other top-level key gives itself; the pattern is
    /// the flat object of those keys with a `{}` placeholder each.
    pub fn from_json(json_bytes: &[u8], template_id: u64) -> (r: Option<NestedStructuralTemplate>)
        ensures
            match object_inner(json_bytes@) {
                None => r is None,
                Some(inner) => {
                    let st = nest_scan(inner);
                    if st.keys.len() == 0 {
                        r is None
                    } else {
                        r is Some && r->0.template_id == template_id && byte_seqs(r->0.keys@)
                            == st.keys && r->0.pattern@
                            == seq![0x7Bu8] + st.parts + seq![0x7Du8] && r->0.keys_hash == fnv1a(
                            join_keys(byte_seqs(r->0.keys@)),
                        ) && r->0.match_count == 0
                    }
                },
            },
    {
        if !utf8_valid(json_bytes) || json_bytes.len() < 2 || json_bytes[0] != 0x7B
            || json_bytes[json_bytes.len() - 1] != 0x7D {
            return None;
        }
        let inner = copy_range(json_bytes, 1, json_bytes.len() - 1);
        let bytes = inner.as_slice();
        let mut sc = NestScanner {
            in_string: false,
            depth: 0,
            key: Vec::new(),
            collecting_key: false,
            after_colon0: false,
            after_colon1: false,
            outer: Vec::new(),
            pending: false,
            nested: false,
            first_pair: true,
            keys: Vec::new(),
            parts: Vec::new(),
        };
        assert(nest_view(sc) =~~= nest_scan_start()) by {
            assert(byte_seqs(sc.keys@) =~= Seq::<Seq<u8>>::empty());
        }
        let mut pos: usize = 0;
        while pos < bytes.len()
            invariant
                pos <= bytes@.len(),
                sc.depth <= pos,
                nest_view(sc) == nest_scan(bytes@.subrange(0, pos as int)),
            decreases bytes@.len() - pos,
        {
            proof {
                assert(bytes@.subrange(0, pos + 1).drop_last() =~= bytes@.subrange(0, pos as int));
            }
            sc.step(bytes[pos]);
            pos = pos + 1;
        }
        assert(bytes@.subrange(0, pos as int) =~= bytes@);
        if sc.keys.len() == 0 {
            return None;
        }
        let mut pattern: Vec<u8> = Vec::new();
        pattern.push(0x7B);
        append_bytes(&mut pattern, sc.parts.as_slice());
        pattern.push(0x7D);
        assert(pattern@ =~= seq![0x7Bu8] + sc.parts@ + seq![0x7Du8]);
        let joined = join_key_list(&sc.keys);
        let keys_hash = simple_hash(joined.as_slice());
        Some(NestedStructuralTemplate { template_id, keys: sc.keys, pattern, keys_hash, match_count: 0 })
    }

    pub fn to_structural_template(&self, source_kind: SourceKind) -> (t: StructuralTemplate)
        ensures
            t.template_id == self.template_id,
            t.source_kind == source_kind,
            byte_seqs(t.keys@) == byte_seqs(self.keys@),
            t.pattern@ == self.pattern@,
            t.keys_hash == self.keys_hash,
            t.match_count == self.match_count,
    {
        StructuralTemplate {
            template_id: self.template_id,
            source_kind,
            keys: copy_byte_lists(&self.keys),
            pattern: copy_range(self.pattern.as_slice(), 0, self.pattern.len()),
            keys_hash: self.keys_hash,
            match_count: self.match_count,
        }
    }
}

fn copy_byte_lists(v: &Vec<Vec<u8>>) -> (out: Vec<Vec<u8>>)
    ensures
        byte_seqs(out@) == byte_seqs(v@),
{
    let mut out: Vec<Vec<u8>> = Vec::new();
    let mut i: usize = 0;
    while i < v.len()
        invariant
            i <= v@.len(),
            byte_seqs(out@) == byte_seqs(v@.subrange(0, i as int)),
        decreases v@.len() - i,
    {
        let c = copy_range(v[i].as_slice(), 0, v[i].len());
        assert(c@ =~= v@[i as int]@);
        let ghost before = byte_seqs(out@);
        let ghost cc = c@;
        out.push(c);
        proof {
            assert(byte_seqs(out@) =~= before.push(cc));
            assert(byte_seqs(v@.subrange(0, i + 1)) =~= byte_seqs(v@.subrange(0, i as int)).push(
                v@[i as int]@,
            ));
        }
        i = i + 1;
    }
    assert(v@.subrange(0, i as int) =~= v@);
    out
}

/// A JSON value's kind, judged from its trimmed text.
#[derive(Debug, Clone, Copy, PartialEq, Eq, Structural)]
pub enum SlotKind {
    Integer,
    String,
    Float,
    Boolean,
    Bytes,
}

/// One variable slot of a template.
#[derive(Debug, Clone, PartialEq, Eq)]
pub struct TemplateSlot {
    pub key: Vec<u8>,
    pub slot_kind: SlotKind,
}

/// The kind of a JSON value: quoted is a string, `true`/`false` a boolean,
/// with `.`, `e` or `E` a float, starting with `-` or a digit an integer,
/// anything else bytes.
pub open spec fn slot_kind_of(value: Seq<u8>) -> SlotKind {
    let t = trim_spaces(value);
    if t.len() > 0 && t[0] == 0x22 {
        SlotKind::String
    } else if t == seq![0x74u8, 0x72u8, 0x75u8, 0x65u8] || t == seq![0x66u8, 0x61u8, 0x6Cu8, 0x73u8, 0x65u8] {
        SlotKind::Boolean
    } else if t.contains(0x2Eu8) || t.contains(0x65u8) || t.contains(0x45u8) {
        SlotKind::Float
    } else if t.len() > 0 && (t[0] == 0x2D || (0x30 <= t[0] && t[0] <= 0x39)) {
        SlotKind::Integer
    } else {
        SlotKind::Bytes
    }
}

fn contains_byte(s: &[u8], b: u8) -> (r: bool)
    ensures
        r == s@.contains(b),
{
    let mut i: usize = 0;
    while i < s.len()
        invariant
            i <= s@.len(),
            forall|j: int| 0 <= j < i ==> s@[j] != b,
        decreases s@.len() - i,
    {
        if s[i] == b {
            assert(s@[i as int] == b);
            return true;
        }
        i = i + 1;
    }
    false
}

fn classify_json_value(value: &[u8]) -> (k: SlotKind)
    ensures
        k == slot_kind_of(value@),
{
    let t = trim_bytes(value);
    if t.len() > 0 && t[0] == 0x22 {
        return SlotKind::String;
    }
    let true_lit: [u8; 4] = [0x74, 0x72, 0x75, 0x65];
    let false_lit: [u8; 5] = [0x66, 0x61, 0x6C, 0x73, 0x65];
    assert(true_lit@ =~= seq![0x74u8, 0x72u8, 0x75u8, 0x65u8]);
    assert(false_lit@ =~= seq![0x66u8, 0x61u8, 0x6Cu8, 0x73u8, 0x65u8]);
    if bytes_equal(t.as_slice(), true_lit.as_slice()) || bytes_equal(t.as_slice(), false_lit.as_slice()) {
        return SlotKind::Boolean;
    }
    if contains_byte(t.as_slice(), 0x2E) || contains_byte(t.as_slice(), 0x65) || contains_byte(t.as_slice(), 0x45) {
        return SlotKind::Float;
    }
    if t.len() > 0 && (t[0] == 0x2D || (0x30 <= t[0] && t[0] <= 0x39)) {
        return SlotKind::Integer;
    }
    SlotKind::Bytes
}

// ---------------------------------------------------------------------------
// Decoding the compressed-payload envelope
// ---------------------------------------------------------------------------

/// Decodes a compressed payload. Dictionary frames are read with the
/// manager's dictionary, deltas are applied to the previous version of their
/// base item (trying, in turn, a binary delta, a zstd-compressed binary
/// delta, an XOR delta and a zstd-compressed XOR or binary delta), template
/// payloads are rebuilt from their slot values, and a columnar payload gives
/// the batch bytes (zstd-decompressed when they are a zstd frame) for the
/// caller to read as a batch.
pub fn decode_compressed_payload(
    payload: &[u8],
    dict_manager: &DictionaryManager,
    template_registry: &TemplateRegistry,
    previous_versions: &HashMap<u64, Vec<u8>>,
    source_kind: SourceKind,
) -> (r: Result<Vec<u8>, CompressError>)
    requires
        template_registry.wf(),
    ensures
        payload@.len() < 2 ==> r == Err::<Vec<u8>, CompressError>(
            CompressError::CompressedPayloadTruncated { minimum: 2, actual: payload@.len() as usize },
        ),
        payload@.len() >= 2 && payload@[0] != COMPRESSION_MAGIC ==> r == Err::<Vec<u8>, CompressError>(
            CompressError::InvalidCompressionTag(payload@[0]),
        ),
        payload@.len() >= 2 && payload@[0] == COMPRESSION_MAGIC && CompressionTag::from_byte_spec(
            payload@[1],
        ) is None ==> r == Err::<Vec<u8>, CompressError>(
            CompressError::InvalidCompressionTag(payload@[1]),
        ),
        payload@.len() >= 2 && payload@[0] == COMPRESSION_MAGIC && payload@[1] == 0 ==> r is Ok
            && r->Ok_0@ == payload@.subrange(2, payload@.len() as int),
        payload@.len() >= 2 && payload@[0] == COMPRESSION_MAGIC && payload@[1] == 2 ==> match zstd_content(
            payload@.subrange(2, payload@.len() as int),
        ) {
            None => r is Err,
            Some(c) => if c.len() > MAX_DECOMPRESSED_BYTES {
                r is Err
            } else {
                r is Ok && r->Ok_0@ == c
            },
        },
        payload@.len() >= 2 && payload@[0] == COMPRESSION_MAGIC && (payload@[1] == 1 || payload@[1]
            == 3 || payload@[1] == 4) && payload@.len() < 10 ==> r == Err::<Vec<u8>, CompressError>(
            CompressError::CompressedPayloadTruncated { minimum: 10, actual: payload@.len() as usize },
        ),
        payload@.len() >= 10 && payload@[0] == COMPRESSION_MAGIC && payload@[1] == 1 ==> match dictionary_with_id(
            dict_manager.dicts(),
            source_kind,
            u64_at(payload@, 2),
        ) {
            None => r == Err::<Vec<u8>, CompressError>(
                CompressError::DictionaryNotFound { source_kind, dict_id: u64_at(payload@, 2) },
            ),
            Some(i) => match zstd_dict_content(
                dict_manager.dicts()[i].dict_bytes@,
                payload@.subrange(10, payload@.len() as int),
            ) {
                Some(c) => r is Ok && r->Ok_0@ == c,
                None => r is Err,
            },
        },
        payload@.len() >= 10 && payload@[0] == COMPRESSION_MAGIC && payload@[1] == 3
            && !previous_versions@.contains_key(u64_at(payload@, 2)) ==> r == Err::<Vec<u8>, CompressError>(
            CompressError::DeltaBaseNotFound { base_item_id: u64_at(payload@, 2) },
        ),
        payload@.len() >= 10 && payload@[0] == COMPRESSION_MAGIC && payload@[1] == 3
            && previous_versions@.contains_key(u64_at(payload@, 2)) ==> result_is(
            r,
            delta_payload_decode(
                payload@.subrange(10, payload@.len() as int),
                previous_versions@[u64_at(payload@, 2)]@,
            ),
        ),
        payload@.len() >= 10 && payload@[0] == COMPRESSION_MAGIC && payload@[1] == 4
            && !template_registry.templates_map().contains_key(u64_at(payload@, 2)) ==> r == Err::<
            Vec<u8>,
            CompressError,
        >(CompressError::TemplateNotFound { template_id: u64_at(payload@, 2) }),
        payload@.len() >= 10 && payload@[0] == COMPRESSION_MAGIC && payload@[1] == 4
            && template_registry.templates_map().contains_key(u64_at(payload@, 2)) ==> template_decoded(
            template_registry.templates_map()[u64_at(payload@, 2)],
            payload@.subrange(10, payload@.len() as int),
            r,
        ),
        payload@.len() >= 2 && payload@[0] == COMPRESSION_MAGIC && payload@[1] == 5 ==> r is Ok && (
        r->Ok_0@ == payload@.subrange(2, payload@.len() as int) || zstd_content(
            payload@.subrange(2, payload@.len() as int),
        ) == Some(r->Ok_0@)),
{
    broadcast use vstd::std_specs::hash::group_hash_axioms;

    if payload.len() < 2 {
        return Err(CompressError::CompressedPayloadTruncated { minimum: 2, actual: payload.len() });
    }
    if payload[0] != COMPRESSION_MAGIC {
        return Err(CompressError::InvalidCompressionTag(payload[0]));
    }
    let tag_byte = payload[1];
    let tag = match CompressionTag::from_byte(tag_byte) {
        Some(t) => t,
        None => return Err(CompressError::InvalidCompressionTag(tag_byte)),
    };
    let data = copy_range(payload, 2, payload.len());
    match tag {
        CompressionTag::Passthrough => Ok(data),
        CompressionTag::ZstdDict => {
            if data.len() < 8 {
                return Err(
                    CompressError::CompressedPayloadTruncated { minimum: 10, actual: payload.len() },
                );
            }
            let dict_id = read_u64_le(payload, 2);
            let rest = copy_range(payload, 10, payload.len());
            dict_manager.decompress_with_dict(source_kind, dict_id, rest.as_slice())
        },
        CompressionTag::ZstdRaw => zstd_decompress_raw(data.as_slice(), MAX_DECOMPRESSED_BYTES),
        CompressionTag::Delta => {
            if data.len() < 8 {
                return Err(
                    CompressError::CompressedPayloadTruncated { minimum: 10, actual: payload.len() },
                );
            }
            let base_item_id = read_u64_le(payload, 2);
            let delta_data = copy_range(payload, 10, payload.len());
            let base = match previous_versions.get(&base_item_id) {
                Some(b) => b,
                None => return Err(CompressError::DeltaBaseNotFound { base_item_id }),
            };
            match BinaryDelta::decode_from_bytes(delta_data.as_slice()) {
                Ok(delta) => {
                    return delta.apply(base.as_slice());
                },
                Err(_) => {},
            }
            match delta_decompress_from_zstd(delta_data.as_slice()) {
                Ok(delta) => {
                    return delta.apply(base.as_slice());
                },
                Err(_) => {},
            }
            match XorDelta::decode_from_bytes(delta_data.as_slice()) {
                Ok(xor_delta) => {
                    return xor_delta.apply(base.as_slice());
                },
                Err(_) => {},
            }
            match zstd_decompress_raw(delta_data.as_slice(), MAX_DECOMPRESSED_BYTES) {
                Ok(delta_bytes) => {
                    match XorDelta::decode_from_bytes(delta_bytes.as_slice()) {
                        Ok(xor_delta) => {
                            return xor_delta.apply(base.as_slice());
                        },
                        Err(_) => {},
                    }
                    match BinaryDelta::decode_from_bytes(delta_bytes.as_slice()) {
                        Ok(delta) => {
                            return delta.apply(base.as_slice());
                        },
                        Err(_) => {},
                    }
                },
                Err(_) => {},
            }
            Err(CompressError::DeltaInvalidTag(0xFF))
        },
        CompressionTag::Template => {
            if data.len() < 8 {
                return Err(
                    CompressError::CompressedPayloadTruncated { minimum: 10, actual: payload.len() },
                );
            }
            let template_id = read_u64_le(payload, 2);
            let slot_data = copy_range(payload, 10, payload.len());
            let template = match template_registry.get_template(template_id) {
                Some(t) => t,
                None => return Err(CompressError::TemplateNotFound { template_id }),
            };
            match decode_slot_values_compressed(slot_data.as_slice()) {
                Ok(values) => {
                    match template.reconstruct(values.as_slice()) {
                        Ok(result) => {
                            return Ok(result);
                        },
                        Err(_) => {},
                    }
                },
                Err(_) => {},
            }
            let values = StructuralTemplate::decode_slot_values(slot_data.as_slice())?;
            template.reconstruct(values.as_slice())
        },
        CompressionTag::Columnar => {
            match zstd_decompress_raw(data.as_slice(), MAX_DECOMPRESSED_BYTES) {
                Ok(decompressed) => Ok(decompressed),
                Err(_) => Ok(data),
            }
        },
    }
}

// ---------------------------------------------------------------------------
// Batch accumulation
// ---------------------------------------------------------------------------

pub const MIN_COLUMNAR_BATCH_SIZE: usize = 4;
pub const MAX_COLUMNAR_BATCH_SIZE: usize = 128;
pub const MAX_COLUMNAR_BATCH_BYTES: usize = 524288;

/// The total length of the accumulated items.
pub open spec fn items_len(items: Seq<(SourceKind, Vec<u8>)>) -> nat
    decreases items.len(),
{
    if items.len() == 0 {
        0
    } else {
        items_len(items.drop_last()) + items.last().1@.len()
    }
}

/// Items collected for one columnar batch.
pub struct ColumnarBatchAccumulator {
    items: Vec<(SourceKind, Vec<u8>)>,
    total_bytes: usize,
    max_items: usize,
    max_bytes: usize,
}

impl ColumnarBatchAccumulator {
    pub closed spec fn wf(&self) -> bool {
        self.total_bytes == items_len(self.items@)
    }

    /// The items collected so far, kind and bytes, in order.
    pub closed spec fn items_view(&self) -> Seq<(SourceKind, Seq<u8>)> {
        self.items@.map_values(|it: (SourceKind, Vec<u8>)| (it.0, it.1@))
    }

    pub closed spec fn total(&self) -> nat {
        self.total_bytes as nat
    }

    pub closed spec fn limits(&self) -> (usize, usize) {
        (self.max_items, self.max_bytes)
    }

    pub fn new() -> (a: Self)
        ensures
            a.wf(),
            a.items_view().len() == 0,
            a.total() == 0,
            a.limits() == (MAX_COLUMNAR_BATCH_SIZE, MAX_COLUMNAR_BATCH_BYTES),
    {
        ColumnarBatchAccumulator {
            items: Vec::new(),
            total_bytes: 0,
            max_items: MAX_COLUMNAR_BATCH_SIZE,
            max_bytes: MAX_COLUMNAR_BATCH_BYTES,
        }
    }

    pub fn with_limits(max_items: usize, max_bytes: usize) -> (a: Self)
        ensures
            a.wf(),
            a.items_view().len() == 0,
            a.total() == 0,
            a.limits() == (max_items, max_bytes),
    {
        ColumnarBatchAccumulator { items: Vec::new(), total_bytes: 0, max_items, max_bytes }
    }

    /// Whether the item or byte limit is reached.
    pub fn should_flush(&self) -> (b: bool)
        ensures
            b == (self.items_view().len() >= self.limits().0 || self.total() >= self.limits().1),
    {
        self.items.len() >= self.max_items || self.total_bytes >= self.max_bytes
    }

    /// Adds an item; gives whether the batch should now be flushed.
    pub fn add(&mut self, source_kind: SourceKind, data: &[u8]) -> (flush: bool)
        requires
            old(self).wf(),
            old(self).total() + data@.len() <= usize::MAX,
        ensures
            final(self).wf(),
            final(self).items_view() == old(self).items_view().push((source_kind, data@)),
            final(self).total() == old(self).total() + data@.len(),
            final(self).limits() == old(self).limits(),
            flush == (final(self).items_view().len() >= final(self).limits().0 || final(self).total()
                >= final(self).limits().1),
    {
        let copy = copy_range(data, 0, data.len());
        assert(copy@ =~= data@);
        let ghost before = self.items@;
        self.items.push((source_kind, copy));
        proof {
            assert(self.items@.drop_last() =~= before);
        }
        self.total_bytes = self.total_bytes + data.len();
        assert(self.items_view() =~= old(self).items_view().push((source_kind, data@)));
        self.should_flush()
    }

    pub fn has_enough_for_columnar(&self) -> (b: bool)
        ensures
            b == (self.items_view().len() >= MIN_COLUMNAR_BATCH_SIZE),
    {
        self.items.len() >= MIN_COLUMNAR_BATCH_SIZE
    }

    fn encode_items(&self) -> (b: ColumnarBatch)
        ensures
            b.version == COLUMNAR_BATCH_VERSION,
            b.row_count == #[verifier::truncate] (self.items_view().len() as u32),
            batch_of(b, self.items_view()),
    {
        let mut refs: Vec<(SourceKind, &[u8])> = Vec::new();
        let mut i: usize = 0;
        while i < self.items.len()
            invariant
                i <= self.items@.len(),
                refs@.len() == i,
                item_views(refs@) == self.items_view().take(i as int),
            decreases self.items@.len() - i,
        {
            let ghost before = refs@;
            refs.push((self.items[i].0, self.items[i].1.as_slice()));
            proof {
                assert(item_views(refs@) =~= item_views(before).push((self.items@[i as int].0, self.items@[i as int].1@)));
                assert(self.items_view().take(i + 1) =~= self.items_view().take(i as int).push(self.items_view()[i as int]));
            }
            i = i + 1;
        }
        assert(self.items_view().take(i as int) =~= self.items_view());
        ColumnarBatch::encode_batch(refs.as_slice())
    }

    /// Encodes the collected items as a batch when there are at least four;
    /// the items are dropped either way.
    pub fn flush(&mut self) -> (r: Option<ColumnarBatch>)
        requires
            old(self).wf(),
        ensures
            final(self).wf(),
            final(self).items_view().len() == 0,
            final(self).total() == 0,
            final(self).limits() == old(self).limits(),
            r is Some == (old(self).items_view().len() >= MIN_COLUMNAR_BATCH_SIZE),
            r matches Some(b) ==> b.row_count == #[verifier::truncate] (old(self).items_view().len() as u32),
            r matches Some(b) ==> batch_of(b, old(self).items_view()),
    {
        if !self.has_enough_for_columnar() {
            self.items = Vec::new();
            self.total_bytes = 0;
            assert(self.items_view() =~= Seq::<(SourceKind, Seq<u8>)>::empty());
            return None;
        }
        let batch = self.encode_items();
        self.items = Vec::new();
        self.total_bytes = 0;
        assert(self.items_view() =~= Seq::<(SourceKind, Seq<u8>)>::empty());
        Some(batch)
    }

    /// Encodes the collected items as a batch whenever there is at least one.
    pub fn flush_forced(&mut self) -> (r: Option<ColumnarBatch>)
        requires
            old(self).wf(),
        ensures
            final(self).wf(),
            old(self).items_view().len() == 0 ==> r is None && final(self).items_view() == old(self).items_view() && final(self).total() == old(self).total(),
            old(self).items_view().len() > 0 ==> r is Some && r->0.row_count
                == #[verifier::truncate] (old(self).items_view().len() as u32) && final(self).items_view().len() == 0 && final(self).total() == 0,
            final(self).limits() == old(self).limits(),
            r matches Some(b) ==> batch_of(b, old(self).items_view()),
    {
        if self.items.len() == 0 {
            return None;
        }
        let batch = self.encode_items();
        self.items = Vec::new();
        self.total_bytes = 0;
        assert(self.items_view() =~= Seq::<(SourceKind, Seq<u8>)>::empty());
        Some(batch)
    }

    pub fn len(&self) -> (n: usize)
        ensures
            n == self.items_view().len(),
    {
        self.items.len()
    }

    pub fn is_empty(&self) -> (b: bool)
        ensures
            b == (self.items_view().len() == 0),
    {
        self.items.len() == 0
    }

    /// Hands out the collected items, leaving none.
    pub fn drain(&mut self) -> (items: Vec<(SourceKind, Vec<u8>)>)
        requires
            old(self).wf(),
        ensures
            final(self).wf(),
            items@.map_values(|it: (SourceKind, Vec<u8>)| (it.0, it.1@)) == old(self).items_view(),
            final(self).items_view().len() == 0,
            final(self).total() == 0,
            final(self).limits() == old(self).limits(),
    {
        self.total_bytes = 0;
        let mut items: Vec<(SourceKind, Vec<u8>)> = Vec::new();
        std::mem::swap(&mut items, &mut self.items);
        assert(self.items_view() =~= Seq::<(SourceKind, Seq<u8>)>::empty());
        items
    }

    pub fn total_bytes(&self) -> (n: usize)
        ensures
            n == self.total(),
    {
        self.total_bytes
    }
}

} // verus!
