//! The shared block catalog: content-addressed exact blocks and bundles of
//! block ranges that both endpoints hold, their sync and repair payloads, and
//! the lookups the encoder runs against them (exact material, prefixes,
//! internal windows). Content hashes are SHA-256, computed by the `sha2` crate.

use vstd::prelude::*;
use sha2::Digest;
use crate::chpmt::{ObjectDependency, ObjectKind, ObjectVersion, PromotionLevel};
use crate::compress::bytes_equal;
use crate::keyed::{U64Map, entry_values};
use crate::source::{ExactStateMaterial, SourceKind};
use crate::assembly::{AssemblyExtractionCandidate, AssemblyExtractionConfig};
use crate::extraction::{
    delimited_candidate, delimited_segments, extract_contiguous_motif_candidates,
    extract_delimiter_bounded_candidates, extract_discontinuous_field_group_candidates,
    extract_slot_bearing_candidates, field_group_candidate, field_group_indices, first_up_to,
    motif_candidate, motif_max_len, motif_min_len, motif_starts, slot_bracket_from, slot_candidate,
    slot_structures, split_from,
};
use crate::wire::{append_bytes, copy_range, push_u32_le, push_u64_le, read_u64_le, u32_le, u64_at, u64_le};

verus! {

pub const CATALOG_SYNC_PAYLOAD_VERSION: u8 = 1;
pub const REPAIR_PAYLOAD_VERSION: u8 = 1;
pub const MAX_CATALOG_SYNC_BLOCKS: usize = 4096;
pub const MAX_CATALOG_SYNC_BUNDLES: usize = 1024;
pub const MAX_BUNDLE_MEMBERS: usize = 1024;

#[derive(Debug, Clone, Copy, PartialEq, Eq, PartialOrd, Ord, Hash, Default, Structural)]
pub struct BlockId(pub u64);

#[derive(Debug, Clone, Copy, PartialEq, Eq, PartialOrd, Ord, Hash, Default, Structural)]
pub struct BundleId(pub u64);

#[derive(Debug, Clone, Copy, PartialEq, Eq, PartialOrd, Ord, Hash, Default, Structural)]
pub struct BlockCatalogVersion(pub u64);

#[derive(Debug, Clone, Copy, PartialEq, Eq, PartialOrd, Ord, Hash, Default, Structural)]
pub struct ResidualBufferId(pub u64);

#[derive(Debug, Clone, PartialEq, Eq, Default)]
pub struct SubstrateVersionMeta {
    pub version: ObjectVersion,
    pub dependencies: Vec<ObjectDependency>,
    pub promotion_level: PromotionLevel,
}

/// Version metadata with nothing recorded yet.
pub open spec fn is_fresh_meta(m: SubstrateVersionMeta) -> bool {
    &&& m.version == ObjectVersion { schema_version: 0, object_revision: 0 }
    &&& m.dependencies@.len() == 0
    &&& m.promotion_level == PromotionLevel::Cold
}

fn fresh_meta() -> (m: SubstrateVersionMeta)
    ensures
        is_fresh_meta(m),
{
    SubstrateVersionMeta {
        version: ObjectVersion { schema_version: 0, object_revision: 0 },
        dependencies: Vec::new(),
        promotion_level: PromotionLevel::Cold,
    }
}

#[derive(Debug, Clone, PartialEq, Eq)]
pub struct AtomFragment {
    pub fragment_id: BlockId,
    pub version_meta: SubstrateVersionMeta,
    pub source_kind: SourceKind,
    pub byte_offset: u32,
    pub byte_len: u32,
    pub content_hash: [u8; 32],
    pub material: Vec<u8>,
}

#[derive(Debug, Clone, PartialEq, Eq)]
pub struct ExactBlockObject {
    pub block_id: BlockId,
    pub version_meta: SubstrateVersionMeta,
    pub source_kind: SourceKind,
    pub byte_len: u32,
    pub content_hash: [u8; 32],
    pub material: Vec<u8>,
}

#[derive(Debug, Clone, PartialEq, Eq)]
pub struct ExactBundleObject {
    pub bundle_id: BundleId,
    pub version_meta: SubstrateVersionMeta,
    pub members: Vec<BundleMember>,
    pub byte_len: u32,
    pub content_hash: [u8; 32],
}

#[derive(Debug, Clone, PartialEq, Eq)]
pub struct ExactRangeObject {
    pub range_id: u64,
    pub version_meta: SubstrateVersionMeta,
    pub base_block_id: BlockId,
    pub start: u32,
    pub byte_len: u32,
    pub content_hash: [u8; 32],
}

#[derive(Debug, Clone, PartialEq, Eq)]
pub struct ResidualBufferObject {
    pub residual_id: ResidualBufferId,
    pub version_meta: SubstrateVersionMeta,
    pub byte_len: u32,
    pub content_hash: [u8; 32],
    pub material: Vec<u8>,
}

#[derive(Debug, Clone, PartialEq, Eq)]
pub enum AtomSubstrateObject {
    AtomFragment(AtomFragment),
    ExactBlock(ExactBlockObject),
    ExactBundle(ExactBundleObject),
    ExactRange(ExactRangeObject),
    ResidualBuffer(ResidualBufferObject),
}

impl AtomSubstrateObject {
    pub fn object_kind(&self) -> (k: ObjectKind)
        ensures
            k == (match self {
                AtomSubstrateObject::AtomFragment(_) => ObjectKind::AtomFragment,
                AtomSubstrateObject::ExactBlock(_) => ObjectKind::ExactBlock,
                AtomSubstrateObject::ExactBundle(_) => ObjectKind::ExactBundle,
                AtomSubstrateObject::ExactRange(_) => ObjectKind::ExactRange,
                AtomSubstrateObject::ResidualBuffer(_) => ObjectKind::ResidualBuffer,
            }),
    {
        match self {
            AtomSubstrateObject::AtomFragment(_) => ObjectKind::AtomFragment,
            AtomSubstrateObject::ExactBlock(_) => ObjectKind::ExactBlock,
            AtomSubstrateObject::ExactBundle(_) => ObjectKind::ExactBundle,
            AtomSubstrateObject::ExactRange(_) => ObjectKind::ExactRange,
            AtomSubstrateObject::ResidualBuffer(_) => ObjectKind::ResidualBuffer,
        }
    }
}

/// An exact block as the catalog files it.
#[derive(Debug, Clone, PartialEq, Eq)]
pub struct BlockCatalogEntry {
    pub block_id: BlockId,
    pub source_kind: SourceKind,
    pub byte_len: u32,
    pub content_hash: [u8; 32],
    pub material: Vec<u8>,
}

/// `len` bytes of a block from `start`.
#[derive(Debug, Clone, Copy, PartialEq, Eq, Structural)]
pub struct BundleMember {
    pub block_id: BlockId,
    pub start: u32,
    pub len: u32,
}

/// A bundle: the concatenation of its members' ranges.
#[derive(Debug, Clone, PartialEq, Eq)]
pub struct BundleCatalogEntry {
    pub bundle_id: BundleId,
    pub members: Vec<BundleMember>,
    pub byte_len: u32,
    pub content_hash: [u8; 32],
}

/// What a block entry holds, as values.
pub struct BlockView {
    pub block_id: BlockId,
    pub source_kind: SourceKind,
    pub byte_len: u32,
    pub content_hash: Seq<u8>,
    pub material: Seq<u8>,
}

/// What a bundle entry holds, as values.
pub struct BundleView {
    pub bundle_id: BundleId,
    pub members: Seq<BundleMember>,
    pub byte_len: u32,
    pub content_hash: Seq<u8>,
}

impl View for BlockCatalogEntry {
    type V = BlockView;

    open spec fn view(&self) -> BlockView {
        BlockView {
            block_id: self.block_id,
            source_kind: self.source_kind,
            byte_len: self.byte_len,
            content_hash: self.content_hash@,
            material: self.material@,
        }
    }
}

impl View for BundleCatalogEntry {
    type V = BundleView;

    open spec fn view(&self) -> BundleView {
        BundleView {
            bundle_id: self.bundle_id,
            members: self.members@,
            byte_len: self.byte_len,
            content_hash: self.content_hash@,
        }
    }
}

// ---------------------------------------------------------------------------
// Content hashing and identifiers
// ---------------------------------------------------------------------------

/// The SHA-256 digest of a byte string.
pub uninterp spec fn sha256_digest(bytes: Seq<u8>) -> Seq<u8>;

/// `sha2::Sha256::digest`: the 32-byte SHA-256 digest of the input, a
/// function of the input bytes alone.
#[verifier::external_body]
pub(crate) fn sha256(bytes: &[u8]) -> (d: [u8; 32])
    ensures
        d@ == sha256_digest(bytes@),
{
    sha2::Sha256::digest(bytes).into()
}

/// `pulzz:block:v1` as ASCII bytes.
pub open spec fn block_label() -> Seq<u8> {
    seq![0x70u8, 0x75, 0x6c, 0x7a, 0x7a, 0x3a, 0x62, 0x6c, 0x6f, 0x63, 0x6b, 0x3a, 0x76, 0x31]
}

/// `pulzz:bundle:v1` as ASCII bytes.
pub open spec fn bundle_label() -> Seq<u8> {
    seq![0x70u8, 0x75, 0x6c, 0x7a, 0x7a, 0x3a, 0x62, 0x75, 0x6e, 0x64, 0x6c, 0x65, 0x3a, 0x76, 0x31]
}

fn push_block_label(out: &mut Vec<u8>)
    ensures
        final(out)@ == old(out)@ + block_label(),
{
    let ghost start = out@;
    out.push(0x70);
    out.push(0x75);
    out.push(0x6c);
    out.push(0x7a);
    out.push(0x7a);
    out.push(0x3a);
    out.push(0x62);
    out.push(0x6c);
    out.push(0x6f);
    out.push(0x63);
    out.push(0x6b);
    out.push(0x3a);
    out.push(0x76);
    out.push(0x31);
    assert(out@ =~= start + block_label());
}

fn push_bundle_label(out: &mut Vec<u8>)
    ensures
        final(out)@ == old(out)@ + bundle_label(),
{
    let ghost start = out@;
    out.push(0x70);
    out.push(0x75);
    out.push(0x6c);
    out.push(0x7a);
    out.push(0x7a);
    out.push(0x3a);
    out.push(0x62);
    out.push(0x75);
    out.push(0x6e);
    out.push(0x64);
    out.push(0x6c);
    out.push(0x65);
    out.push(0x3a);
    out.push(0x76);
    out.push(0x31);
    assert(out@ =~= start + bundle_label());
}

/// Identifiers are never zero: a zero digest prefix becomes one.
pub open spec fn nonzero_id(x: u64) -> u64 {
    if x == 0 {
        1
    } else {
        x
    }
}

/// A block's id: the first eight digest bytes (little-endian) over the
/// block label, the source-kind tag and the content hash.
pub open spec fn block_id_of(kind: SourceKind, hash: Seq<u8>) -> u64 {
    nonzero_id(u64_at(sha256_digest(block_label() + seq![kind.tag_spec()] + hash), 0))
}

pub open spec fn member_bytes(m: BundleMember) -> Seq<u8> {
    u64_le(m.block_id.0) + u32_le(m.start) + u32_le(m.len)
}

/// The members' ids, starts and lengths, in order, as little-endian bytes.
pub open spec fn members_bytes(s: Seq<BundleMember>) -> Seq<u8>
    decreases s.len(),
{
    if s.len() == 0 {
        Seq::empty()
    } else {
        members_bytes(s.drop_last()) + member_bytes(s.last())
    }
}

/// A bundle's id, over the bundle label, its members and its content hash.
pub open spec fn bundle_id_of(members: Seq<BundleMember>, hash: Seq<u8>) -> u64 {
    nonzero_id(u64_at(sha256_digest(bundle_label() + members_bytes(members) + hash), 0))
}

/// A range's id, over its base block, start, length and content hash.
pub open spec fn range_id_of(base: BlockId, start: u32, len: u32, hash: Seq<u8>) -> u64 {
    u64_at(sha256_digest(u64_le(base.0) + u32_le(start) + u32_le(len) + hash), 0)
}

/// A residual buffer's id: the first eight content-hash bytes.
pub open spec fn residual_id_of(hash: Seq<u8>) -> u64 {
    u64_at(hash, 0)
}

fn content_hash(material: &[u8]) -> (h: [u8; 32])
    ensures
        h@ == sha256_digest(material@),
{
    sha256(material)
}

fn derive_residual_id(hash: &[u8; 32]) -> (id: u64)
    ensures
        id == residual_id_of(hash@),
{
    read_u64_le(hash.as_slice(), 0)
}

fn derive_range_id(base_block_id: BlockId, start: u32, byte_len: u32, hash: &[u8; 32]) -> (id: u64)
    ensures
        id == range_id_of(base_block_id, start, byte_len, hash@),
{
    let mut buf: Vec<u8> = Vec::new();
    push_u64_le(&mut buf, base_block_id.0);
    push_u32_le(&mut buf, start);
    push_u32_le(&mut buf, byte_len);
    append_bytes(&mut buf, hash.as_slice());
    assert(buf@ =~= u64_le(base_block_id.0) + u32_le(start) + u32_le(byte_len) + hash@);
    let digest = sha256(buf.as_slice());
    read_u64_le(digest.as_slice(), 0)
}

fn derive_block_id(kind: SourceKind, hash: &[u8; 32]) -> (id: BlockId)
    ensures
        id.0 == block_id_of(kind, hash@),
{
    let mut buf: Vec<u8> = Vec::new();
    push_block_label(&mut buf);
    buf.push(kind.tag());
    append_bytes(&mut buf, hash.as_slice());
    assert(buf@ =~= block_label() + seq![kind.tag_spec()] + hash@);
    let digest = sha256(buf.as_slice());
    let x = read_u64_le(digest.as_slice(), 0);
    BlockId(if x == 0 { 1 } else { x })
}

fn derive_bundle_id(members: &[BundleMember], hash: &[u8; 32]) -> (id: BundleId)
    ensures
        id.0 == bundle_id_of(members@, hash@),
{
    let mut buf: Vec<u8> = Vec::new();
    push_bundle_label(&mut buf);
    let ghost start = buf@;
    let mut i: usize = 0;
    while i < members.len()
        invariant
            i <= members@.len(),
            buf@ == start + members_bytes(members@.take(i as int)),
        decreases members@.len() - i,
    {
        let m = members[i];
        push_u64_le(&mut buf, m.block_id.0);
        push_u32_le(&mut buf, m.start);
        push_u32_le(&mut buf, m.len);
        proof {
            assert(members@.take(i + 1).drop_last() =~= members@.take(i as int));
            assert(buf@ =~= start + members_bytes(members@.take(i + 1)));
        }
        i = i + 1;
    }
    assert(members@.take(i as int) =~= members@);
    append_bytes(&mut buf, hash.as_slice());
    assert(buf@ =~= bundle_label() + members_bytes(members@) + hash@);
    let digest = sha256(buf.as_slice());
    let x = read_u64_le(digest.as_slice(), 0);
    BundleId(if x == 0 { 1 } else { x })
}

/// The id the catalog gives a block of this kind and material.
pub fn derive_catalog_block_id(source_kind: SourceKind, material: &[u8]) -> (id: BlockId)
    ensures
        id.0 == block_id_of(source_kind, sha256_digest(material@)),
{
    let h = content_hash(material);
    derive_block_id(source_kind, &h)
}

// ---------------------------------------------------------------------------
// Errors
// ---------------------------------------------------------------------------

#[derive(Debug, Clone, PartialEq, Eq)]
pub enum CatalogError {
    Serde(String),
    InvalidCatalogPayloadVersion(u8),
    InvalidRepairPayloadVersion(u8),
    PayloadTooLarge,
    TooManySyncBlocks(usize),
    TooManySyncBundles(usize),
    TooManyBundleMembers(usize),
    InvalidBlockId(BlockId),
    InvalidBundleId(BundleId),
    EmptyBundle,
    DuplicateBlock(BlockId),
    DuplicateBundle(BundleId),
    ConflictingBlock(BlockId),
    ConflictingBundle(BundleId),
    BlockLenMismatch { block_id: BlockId, expected: usize, actual: usize },
    BundleLenMismatch { bundle_id: BundleId, expected: usize, actual: usize },
    BlockHashMismatch(BlockId),
    BundleHashMismatch(BundleId),
    BlockIdMismatch { expected: BlockId, actual: BlockId },
    BundleIdMismatch { expected: BundleId, actual: BundleId },
    MissingBlock(BlockId),
    MissingBundle(BundleId),
    InvalidBlockRange { block_id: BlockId, start: u32, len: u32, block_len: usize },
    StaleCatalogVersion { current: BlockCatalogVersion, incoming: BlockCatalogVersion },
    EmptyRepairRequest,
}

/// A length as a `u32`, refused when it does not fit.
fn checked_u32_len(len: usize) -> (r: Result<u32, CatalogError>)
    ensures
        match r {
            Ok(n) => len <= u32::MAX && n == len,
            Err(e) => len > u32::MAX && e == CatalogError::PayloadTooLarge,
        },
{
    if len > 0xffff_ffffusize {
        Err(CatalogError::PayloadTooLarge)
    } else {
        Ok(len as u32)
    }
}

/// The ok/err shape of a result that carries bytes, with the bytes as values.
pub open spec fn bytes_result(r: Result<Vec<u8>, CatalogError>) -> Result<Seq<u8>, CatalogError> {
    match r {
        Ok(v) => Ok(v@),
        Err(e) => Err(e),
    }
}

// ---------------------------------------------------------------------------
// Substrate objects built from bytes
// ---------------------------------------------------------------------------

impl AtomFragment {
    pub fn from_bytes(source_kind: SourceKind, byte_offset: u32, material: Vec<u8>) -> (r: Result<Self, CatalogError>)
        ensures
            match r {
                Ok(f) => {
                    &&& material@.len() <= u32::MAX
                    &&& f.fragment_id.0 == block_id_of(source_kind, sha256_digest(material@))
                    &&& is_fresh_meta(f.version_meta)
                    &&& f.source_kind == source_kind
                    &&& f.byte_offset == byte_offset
                    &&& f.byte_len == material@.len()
                    &&& f.content_hash@ == sha256_digest(material@)
                    &&& f.material@ == material@
                },
                Err(e) => material@.len() > u32::MAX && e == CatalogError::PayloadTooLarge,
            },
    {
        let byte_len = checked_u32_len(material.len())?;
        let content_hash = content_hash(material.as_slice());
        Ok(AtomFragment {
            fragment_id: derive_block_id(source_kind, &content_hash),
            version_meta: fresh_meta(),
            source_kind,
            byte_offset,
            byte_len,
            content_hash,
            material,
        })
    }
}

impl ExactBlockObject {
    pub fn from_bytes(source_kind: SourceKind, material: Vec<u8>) -> (r: Result<Self, CatalogError>)
        ensures
            match r {
                Ok(b) => {
                    &&& material@.len() <= u32::MAX
                    &&& b.block_id.0 == block_id_of(source_kind, sha256_digest(material@))
                    &&& is_fresh_meta(b.version_meta)
                    &&& b.source_kind == source_kind
                    &&& b.byte_len == material@.len()
                    &&& b.content_hash@ == sha256_digest(material@)
                    &&& b.material@ == material@
                },
                Err(e) => material@.len() > u32::MAX && e == CatalogError::PayloadTooLarge,
            },
    {
        let byte_len = checked_u32_len(material.len())?;
        let content_hash = content_hash(material.as_slice());
        Ok(ExactBlockObject {
            block_id: derive_block_id(source_kind, &content_hash),
            version_meta: fresh_meta(),
            source_kind,
            byte_len,
            content_hash,
            material,
        })
    }
}

impl ExactRangeObject {
    pub fn new(base_block_id: BlockId, start: u32, material: &[u8]) -> (r: Result<Self, CatalogError>)
        ensures
            match r {
                Ok(o) => {
                    &&& material@.len() <= u32::MAX
                    &&& o.range_id == range_id_of(base_block_id, start, material@.len() as u32, sha256_digest(material@))
                    &&& is_fresh_meta(o.version_meta)
                    &&& o.base_block_id == base_block_id
                    &&& o.start == start
                    &&& o.byte_len == material@.len()
                    &&& o.content_hash@ == sha256_digest(material@)
                },
                Err(e) => material@.len() > u32::MAX && e == CatalogError::PayloadTooLarge,
            },
    {
        let byte_len = checked_u32_len(material.len())?;
        let content_hash = content_hash(material);
        Ok(ExactRangeObject {
            range_id: derive_range_id(base_block_id, start, byte_len, &content_hash),
            version_meta: fresh_meta(),
            base_block_id,
            start,
            byte_len,
            content_hash,
        })
    }
}

impl ResidualBufferObject {
    pub fn from_bytes(material: Vec<u8>) -> (r: Result<Self, CatalogError>)
        ensures
            match r {
                Ok(o) => {
                    &&& material@.len() <= u32::MAX
                    &&& o.residual_id.0 == residual_id_of(sha256_digest(material@))
                    &&& is_fresh_meta(o.version_meta)
                    &&& o.byte_len == material@.len()
                    &&& o.content_hash@ == sha256_digest(material@)
                    &&& o.material@ == material@
                },
                Err(e) => material@.len() > u32::MAX && e == CatalogError::PayloadTooLarge,
            },
    {
        let byte_len = checked_u32_len(material.len())?;
        let content_hash = content_hash(material.as_slice());
        Ok(ResidualBufferObject {
            residual_id: ResidualBufferId(derive_residual_id(&content_hash)),
            version_meta: fresh_meta(),
            byte_len,
            content_hash,
            material,
        })
    }
}

/// The block entry that the catalog files for this kind and material.
pub open spec fn block_entry_for(kind: SourceKind, material: Seq<u8>) -> BlockView {
    BlockView {
        block_id: BlockId(block_id_of(kind, sha256_digest(material))),
        source_kind: kind,
        byte_len: material.len() as u32,
        content_hash: sha256_digest(material),
        material,
    }
}

/// What validating a block entry gives: the first check that fails, in order
/// id, length, hash, derived id.
pub open spec fn block_check(e: BlockView) -> Result<(), CatalogError> {
    if e.block_id.0 == 0 {
        Err(CatalogError::InvalidBlockId(e.block_id))
    } else if e.byte_len != e.material.len() {
        Err(CatalogError::BlockLenMismatch {
            block_id: e.block_id,
            expected: e.byte_len as usize,
            actual: e.material.len() as usize,
        })
    } else if sha256_digest(e.material) != e.content_hash {
        Err(CatalogError::BlockHashMismatch(e.block_id))
    } else if block_id_of(e.source_kind, e.content_hash) != e.block_id.0 {
        Err(CatalogError::BlockIdMismatch {
            expected: BlockId(block_id_of(e.source_kind, e.content_hash)),
            actual: e.block_id,
        })
    } else {
        Ok(())
    }
}

impl BlockCatalogEntry {
    pub fn from_bytes(source_kind: SourceKind, material: Vec<u8>) -> (r: Result<Self, CatalogError>)
        ensures
            match r {
                Ok(e) => material@.len() <= u32::MAX && e@ == block_entry_for(source_kind, material@),
                Err(e) => material@.len() > u32::MAX && e == CatalogError::PayloadTooLarge,
            },
    {
        let byte_len = checked_u32_len(material.len())?;
        let content_hash = content_hash(material.as_slice());
        let block_id = derive_block_id(source_kind, &content_hash);
        Ok(BlockCatalogEntry { block_id, source_kind, byte_len, content_hash, material })
    }

    pub fn validate(&self) -> (r: Result<(), CatalogError>)
        ensures
            r == block_check(self@),
    {
        if self.block_id.0 == 0 {
            return Err(CatalogError::InvalidBlockId(self.block_id));
        }
        if self.byte_len as usize != self.material.len() {
            return Err(CatalogError::BlockLenMismatch {
                block_id: self.block_id,
                expected: self.byte_len as usize,
                actual: self.material.len(),
            });
        }
        let h = content_hash(self.material.as_slice());
        if !bytes_equal(h.as_slice(), self.content_hash.as_slice()) {
            return Err(CatalogError::BlockHashMismatch(self.block_id));
        }
        let expected_id = derive_block_id(self.source_kind, &self.content_hash);
        if expected_id.0 != self.block_id.0 {
            return Err(CatalogError::BlockIdMismatch { expected: expected_id, actual: self.block_id });
        }
        Ok(())
    }
}

/// A freshly built entry always passes validation.
pub proof fn lemma_fresh_block_entry_valid(kind: SourceKind, material: Seq<u8>)
    requires
        material.len() <= u32::MAX,
        sha256_digest(material).len() == 32,
    ensures
        block_check(block_entry_for(kind, material)) == Ok::<(), CatalogError>(()),
{
}

impl BundleMember {
    pub fn block(block_id: BlockId, start: u32, len: u32) -> (m: Self)
        ensures
            m == (BundleMember { block_id, start, len }),
    {
        BundleMember { block_id, start, len }
    }
}

// ---------------------------------------------------------------------------
// Comparing entries
// ---------------------------------------------------------------------------

fn same_block(a: &BlockCatalogEntry, b: &BlockCatalogEntry) -> (r: bool)
    ensures
        r == (a@ == b@),
{
    if a.block_id.0 != b.block_id.0 || a.source_kind != b.source_kind || a.byte_len != b.byte_len {
        return false;
    }
    let hash_eq = bytes_equal(a.content_hash.as_slice(), b.content_hash.as_slice());
    let material_eq = bytes_equal(a.material.as_slice(), b.material.as_slice());
    hash_eq && material_eq
}

fn same_members(a: &[BundleMember], b: &[BundleMember]) -> (r: bool)
    ensures
        r == (a@ == b@),
{
    if a.len() != b.len() {
        return false;
    }
    let mut i: usize = 0;
    while i < a.len()
        invariant
            i <= a@.len(),
            a@.len() == b@.len(),
            forall|j: int| 0 <= j < i ==> a@[j] == b@[j],
        decreases a@.len() - i,
    {
        if a[i] != b[i] {
            return false;
        }
        i = i + 1;
    }
    assert(a@ =~= b@);
    true
}

fn same_bundle(a: &BundleCatalogEntry, b: &BundleCatalogEntry) -> (r: bool)
    ensures
        r == (a@ == b@),
{
    if a.bundle_id.0 != b.bundle_id.0 || a.byte_len != b.byte_len {
        return false;
    }
    let members_eq = same_members(a.members.as_slice(), b.members.as_slice());
    let hash_eq = bytes_equal(a.content_hash.as_slice(), b.content_hash.as_slice());
    members_eq && hash_eq
}

fn copy_block_entry(e: &BlockCatalogEntry) -> (c: BlockCatalogEntry)
    ensures
        c@ == e@,
{
    let material = copy_range(e.material.as_slice(), 0, e.material.len());
    assert(material@ =~= e.material@);
    BlockCatalogEntry {
        block_id: e.block_id,
        source_kind: e.source_kind,
        byte_len: e.byte_len,
        content_hash: e.content_hash,
        material,
    }
}

fn copy_members(s: &[BundleMember]) -> (c: Vec<BundleMember>)
    ensures
        c@ == s@,
{
    let mut c: Vec<BundleMember> = Vec::new();
    let mut i: usize = 0;
    while i < s.len()
        invariant
            i <= s@.len(),
            c@ == s@.take(i as int),
        decreases s@.len() - i,
    {
        c.push(s[i]);
        i = i + 1;
        assert(c@ =~= s@.take(i as int));
    }
    assert(s@.take(i as int) =~= s@);
    c
}

fn copy_bundle_entry(e: &BundleCatalogEntry) -> (c: BundleCatalogEntry)
    ensures
        c@ == e@,
{
    BundleCatalogEntry {
        bundle_id: e.bundle_id,
        members: copy_members(e.members.as_slice()),
        byte_len: e.byte_len,
        content_hash: e.content_hash,
    }
}

// ---------------------------------------------------------------------------
// Materializing ranges and bundles
// ---------------------------------------------------------------------------

/// `len` bytes of block `id` from `start`, or why they cannot be had.
pub open spec fn block_range(bm: Map<u64, BlockView>, id: BlockId, start: u32, len: u32) -> Result<Seq<u8>, CatalogError> {
    if !bm.contains_key(id.0) {
        Err(CatalogError::MissingBlock(id))
    } else if start + len <= bm[id.0].material.len() {
        Ok(bm[id.0].material.subrange(start as int, start + len))
    } else {
        Err(CatalogError::InvalidBlockRange {
            block_id: id,
            start,
            len,
            block_len: bm[id.0].material.len() as usize,
        })
    }
}

/// The members' ranges concatenated in order; the first member that fails
/// gives the error.
pub open spec fn members_material(bm: Map<u64, BlockView>, s: Seq<BundleMember>) -> Result<Seq<u8>, CatalogError>
    decreases s.len(),
{
    if s.len() == 0 {
        Ok(Seq::empty())
    } else {
        match members_material(bm, s.drop_last()) {
            Err(e) => Err(e),
            Ok(prev) => match block_range(bm, s.last().block_id, s.last().start, s.last().len) {
                Err(e) => Err(e),
                Ok(b) => Ok(prev + b),
            },
        }
    }
}

/// A bundle's bytes, checked against its recorded length and hash.
pub open spec fn bundle_entry_material(bm: Map<u64, BlockView>, b: BundleView) -> Result<Seq<u8>, CatalogError> {
    match members_material(bm, b.members) {
        Err(e) => Err(e),
        Ok(m) => if m.len() != b.byte_len || sha256_digest(m) != b.content_hash {
            Err(CatalogError::BundleHashMismatch(b.bundle_id))
        } else {
            Ok(m)
        },
    }
}

/// The bytes of bundle `id`, or why they cannot be had.
pub open spec fn bundle_material(bm: Map<u64, BlockView>, bdm: Map<u64, BundleView>, id: BundleId) -> Result<Seq<u8>, CatalogError> {
    if !bdm.contains_key(id.0) {
        Err(CatalogError::MissingBundle(id))
    } else {
        match members_material(bm, bdm[id.0].members) {
            Err(e) => Err(e),
            Ok(m) => if m.len() != bdm[id.0].byte_len || sha256_digest(m) != bdm[id.0].content_hash {
                Err(CatalogError::BundleHashMismatch(id))
            } else {
                Ok(m)
            },
        }
    }
}

/// The blocks and bundles both endpoints hold, under a catalog version.
#[derive(Debug)]
pub struct SharedBlockCatalog {
    version: BlockCatalogVersion,
    blocks: U64Map<BlockCatalogEntry>,
    bundles: U64Map<BundleCatalogEntry>,
}

impl SharedBlockCatalog {
    pub closed spec fn catalog_version(&self) -> BlockCatalogVersion {
        self.version
    }

    /// The blocks by id.
    pub closed spec fn block_map(&self) -> Map<u64, BlockView> {
        self.blocks.map().map_values(|e: BlockCatalogEntry| e@)
    }

    /// The bundles by id.
    pub closed spec fn bundle_map(&self) -> Map<u64, BundleView> {
        self.bundles.map().map_values(|e: BundleCatalogEntry| e@)
    }

    /// The blocks in increasing id order.
    pub closed spec fn block_list(&self) -> Seq<BlockView> {
        self.blocks@.map_values(|p: (u64, BlockCatalogEntry)| p.1@)
    }

    /// The bundles in increasing id order.
    pub closed spec fn bundle_list(&self) -> Seq<BundleView> {
        self.bundles@.map_values(|p: (u64, BundleCatalogEntry)| p.1@)
    }

    /// Every block is filed under its id and passes validation; every bundle
    /// is filed under its id.
    pub closed spec fn wf(&self) -> bool {
        &&& self.blocks.wf()
        &&& self.bundles.wf()
        &&& forall|i: int| 0 <= i < self.blocks@.len() ==> {
            &&& (#[trigger] self.blocks@[i]).1.block_id.0 == self.blocks@[i].0
            &&& block_check(self.blocks@[i].1@) is Ok
        }
        &&& forall|i: int| 0 <= i < self.bundles@.len() ==> (#[trigger] self.bundles@[i]).1.bundle_id.0 == self.bundles@[i].0
    }

    pub fn version(&self) -> (v: BlockCatalogVersion)
        ensures
            v == self.catalog_version(),
    {
        self.version
    }

    pub fn block_count(&self) -> (n: usize)
        ensures
            n == self.block_list().len(),
    {
        self.blocks.len()
    }

    pub fn bundle_count(&self) -> (n: usize)
        ensures
            n == self.bundle_list().len(),
    {
        self.bundles.len()
    }

    pub fn contains_block(&self, block_id: BlockId) -> (b: bool)
        requires
            self.wf(),
        ensures
            b == self.block_map().contains_key(block_id.0),
    {
        self.blocks.contains_key(block_id.0)
    }

    pub fn contains_bundle(&self, bundle_id: BundleId) -> (b: bool)
        requires
            self.wf(),
        ensures
            b == self.bundle_map().contains_key(bundle_id.0),
    {
        self.bundles.contains_key(bundle_id.0)
    }

    pub fn block(&self, block_id: BlockId) -> (r: Option<&BlockCatalogEntry>)
        requires
            self.wf(),
        ensures
            match r {
                Some(e) => self.block_map().contains_key(block_id.0) && e@ == self.block_map()[block_id.0],
                None => !self.block_map().contains_key(block_id.0),
            },
    {
        self.blocks.get(block_id.0)
    }

    pub fn bundle(&self, bundle_id: BundleId) -> (r: Option<&BundleCatalogEntry>)
        requires
            self.wf(),
        ensures
            match r {
                Some(e) => self.bundle_map().contains_key(bundle_id.0) && e@ == self.bundle_map()[bundle_id.0],
                None => !self.bundle_map().contains_key(bundle_id.0),
            },
    {
        self.bundles.get(bundle_id.0)
    }

    /// The blocks in increasing id order.
    pub fn blocks_iter(&self) -> (v: Vec<&BlockCatalogEntry>)
        ensures
            v@.len() == self.block_list().len(),
            forall|i: int| 0 <= i < v@.len() ==> (#[trigger] v@[i])@ == self.block_list()[i],
    {
        let mut v: Vec<&BlockCatalogEntry> = Vec::new();
        let mut i: usize = 0;
        while i < self.blocks.len()
            invariant
                i <= self.blocks@.len(),
                v@.len() == i,
                forall|j: int| 0 <= j < i ==> (#[trigger] v@[j])@ == self.block_list()[j],
            decreases self.blocks@.len() - i,
        {
            v.push(self.blocks.value_at(i));
            i = i + 1;
        }
        v
    }

    /// The bundles in increasing id order.
    pub fn bundles_iter(&self) -> (v: Vec<&BundleCatalogEntry>)
        ensures
            v@.len() == self.bundle_list().len(),
            forall|i: int| 0 <= i < v@.len() ==> (#[trigger] v@[i])@ == self.bundle_list()[i],
    {
        let mut v: Vec<&BundleCatalogEntry> = Vec::new();
        let mut i: usize = 0;
        while i < self.bundles.len()
            invariant
                i <= self.bundles@.len(),
                v@.len() == i,
                forall|j: int| 0 <= j < i ==> (#[trigger] v@[j])@ == self.bundle_list()[j],
            decreases self.bundles@.len() - i,
        {
            v.push(self.bundles.value_at(i));
            i = i + 1;
        }
        v
    }

    pub fn materialize_block_range(&self, block_id: BlockId, start: u32, len: u32) -> (r: Result<Vec<u8>, CatalogError>)
        requires
            self.wf(),
        ensures
            bytes_result(r) == block_range(self.block_map(), block_id, start, len),
    {
        let block = match self.blocks.get(block_id.0) {
            Some(b) => b,
            None => return Err(CatalogError::MissingBlock(block_id)),
        };
        let total = block.material.len();
        let s = start as usize;
        let end_opt = s.checked_add(len as usize);
        match end_opt {
            Some(end) => {
                if s <= total && end <= total {
                    Ok(copy_range(block.material.as_slice(), s, end))
                } else {
                    Err(CatalogError::InvalidBlockRange { block_id, start, len, block_len: total })
                }
            },
            None => Err(CatalogError::InvalidBlockRange { block_id, start, len, block_len: total }),
        }
    }

    fn materialize_members(&self, members: &[BundleMember]) -> (r: Result<Vec<u8>, CatalogError>)
        requires
            self.wf(),
        ensures
            bytes_result(r) == members_material(self.block_map(), members@),
    {
        let mut out: Vec<u8> = Vec::new();
        let mut i: usize = 0;
        while i < members.len()
            invariant
                self.wf(),
                i <= members@.len(),
                members_material(self.block_map(), members@.take(i as int)) == Ok::<Seq<u8>, CatalogError>(out@),
            decreases members@.len() - i,
        {
            proof {
                assert(members@.take(i + 1).drop_last() =~= members@.take(i as int));
                assert(members@.take(i + 1).last() == members@[i as int]);
            }
            let m = members[i];
            let part = self.materialize_block_range(m.block_id, m.start, m.len);
            match part {
                Ok(bytes) => {
                    append_bytes(&mut out, bytes.as_slice());
                },
                Err(e) => {
                    proof {
                        lemma_members_material_err_extends(self.block_map(), members@, i as int + 1);
                    }
                    return Err(e);
                },
            }
            i = i + 1;
        }
        assert(members@.take(i as int) =~= members@);
        Ok(out)
    }

    pub fn materialize_bundle(&self, bundle_id: BundleId) -> (r: Result<Vec<u8>, CatalogError>)
        requires
            self.wf(),
        ensures
            bytes_result(r) == bundle_material(self.block_map(), self.bundle_map(), bundle_id),
    {
        let bundle = match self.bundles.get(bundle_id.0) {
            Some(b) => b,
            None => return Err(CatalogError::MissingBundle(bundle_id)),
        };
        let material = self.materialize_members(bundle.members.as_slice())?;
        let h = content_hash(material.as_slice());
        if material.len() != bundle.byte_len as usize || !bytes_equal(h.as_slice(), bundle.content_hash.as_slice()) {
            return Err(CatalogError::BundleHashMismatch(bundle_id));
        }
        Ok(material)
    }
}

/// Once a prefix of the members fails, the whole list fails the same way.
proof fn lemma_members_material_err_extends(bm: Map<u64, BlockView>, s: Seq<BundleMember>, n: int)
    requires
        0 <= n <= s.len(),
        members_material(bm, s.take(n)) is Err,
    ensures
        members_material(bm, s) == members_material(bm, s.take(n)),
    decreases s.len() - n,
{
    if n < s.len() {
        assert(s.take(n + 1).drop_last() =~= s.take(n));
        lemma_members_material_err_extends(bm, s, n + 1);
    } else {
        assert(s.take(n) =~= s);
    }
}

// ---------------------------------------------------------------------------
// Bundles built over the catalog
// ---------------------------------------------------------------------------

/// The bundle entry that `from_members` builds, or why it refuses.
pub open spec fn bundle_entry_from(bm: Map<u64, BlockView>, members: Seq<BundleMember>) -> Result<BundleView, CatalogError> {
    if members.len() == 0 {
        Err(CatalogError::EmptyBundle)
    } else if members.len() > MAX_BUNDLE_MEMBERS {
        Err(CatalogError::TooManyBundleMembers(members.len() as usize))
    } else {
        match members_material(bm, members) {
            Err(e) => Err(e),
            Ok(m) => if m.len() > u32::MAX {
                Err(CatalogError::PayloadTooLarge)
            } else {
                Ok(BundleView {
                    bundle_id: BundleId(bundle_id_of(members, sha256_digest(m))),
                    members,
                    byte_len: m.len() as u32,
                    content_hash: sha256_digest(m),
                })
            },
        }
    }
}

/// What validating a bundle against the blocks gives: the first check that
/// fails, in order id, emptiness, size, members, length, hash, derived id.
pub open spec fn bundle_check(b: BundleView, bm: Map<u64, BlockView>) -> Result<(), CatalogError> {
    if b.bundle_id.0 == 0 {
        Err(CatalogError::InvalidBundleId(b.bundle_id))
    } else if b.members.len() == 0 {
        Err(CatalogError::EmptyBundle)
    } else if b.members.len() > MAX_BUNDLE_MEMBERS {
        Err(CatalogError::TooManyBundleMembers(b.members.len() as usize))
    } else {
        match members_material(bm, b.members) {
            Err(e) => Err(e),
            Ok(m) => if b.byte_len != m.len() {
                Err(CatalogError::BundleLenMismatch {
                    bundle_id: b.bundle_id,
                    expected: b.byte_len as usize,
                    actual: m.len() as usize,
                })
            } else if sha256_digest(m) != b.content_hash {
                Err(CatalogError::BundleHashMismatch(b.bundle_id))
            } else if bundle_id_of(b.members, b.content_hash) != b.bundle_id.0 {
                Err(CatalogError::BundleIdMismatch {
                    expected: BundleId(bundle_id_of(b.members, b.content_hash)),
                    actual: b.bundle_id,
                })
            } else {
                Ok(())
            },
        }
    }
}

impl BundleCatalogEntry {
    pub fn from_members(members: Vec<BundleMember>, catalog: &SharedBlockCatalog) -> (r: Result<Self, CatalogError>)
        requires
            catalog.wf(),
        ensures
            match r {
                Ok(b) => bundle_entry_from(catalog.block_map(), members@) == Ok::<BundleView, CatalogError>(b@),
                Err(e) => bundle_entry_from(catalog.block_map(), members@) == Err::<BundleView, CatalogError>(e),
            },
    {
        if members.len() == 0 {
            return Err(CatalogError::EmptyBundle);
        }
        if members.len() > MAX_BUNDLE_MEMBERS {
            return Err(CatalogError::TooManyBundleMembers(members.len()));
        }
        let material = catalog.materialize_members(members.as_slice())?;
        let byte_len = checked_u32_len(material.len())?;
        let content_hash = content_hash(material.as_slice());
        let bundle_id = derive_bundle_id(members.as_slice(), &content_hash);
        Ok(BundleCatalogEntry { bundle_id, members, byte_len, content_hash })
    }

    pub fn validate_with_catalog(&self, catalog: &SharedBlockCatalog) -> (r: Result<(), CatalogError>)
        requires
            catalog.wf(),
        ensures
            r == bundle_check(self@, catalog.block_map()),
    {
        if self.bundle_id.0 == 0 {
            return Err(CatalogError::InvalidBundleId(self.bundle_id));
        }
        if self.members.len() == 0 {
            return Err(CatalogError::EmptyBundle);
        }
        if self.members.len() > MAX_BUNDLE_MEMBERS {
            return Err(CatalogError::TooManyBundleMembers(self.members.len()));
        }
        let material = catalog.materialize_members(self.members.as_slice())?;
        if self.byte_len as usize != material.len() {
            return Err(CatalogError::BundleLenMismatch {
                bundle_id: self.bundle_id,
                expected: self.byte_len as usize,
                actual: material.len(),
            });
        }
        let h = content_hash(material.as_slice());
        if !bytes_equal(h.as_slice(), self.content_hash.as_slice()) {
            return Err(CatalogError::BundleHashMismatch(self.bundle_id));
        }
        let expected_id = derive_bundle_id(self.members.as_slice(), &self.content_hash);
        if expected_id.0 != self.bundle_id.0 {
            return Err(CatalogError::BundleIdMismatch { expected: expected_id, actual: self.bundle_id });
        }
        Ok(())
    }
}

/// A bundle that `from_members` builds passes validation against the same blocks.
pub proof fn lemma_built_bundle_valid(bm: Map<u64, BlockView>, members: Seq<BundleMember>)
    requires
        bundle_entry_from(bm, members) is Ok,
    ensures
        bundle_check(bundle_entry_from(bm, members)->Ok_0, bm) == Ok::<(), CatalogError>(()),
{
}

// ---------------------------------------------------------------------------
// Inserting into the catalog
// ---------------------------------------------------------------------------

/// The blocks after inserting one entry, or why it is refused: an invalid
/// entry, or a different entry already filed under its id.
pub open spec fn block_insert(bm: Map<u64, BlockView>, e: BlockView) -> Result<Map<u64, BlockView>, CatalogError> {
    match block_check(e) {
        Err(x) => Err(x),
        Ok(_) => if bm.contains_key(e.block_id.0) && bm[e.block_id.0] != e {
            Err(CatalogError::ConflictingBlock(e.block_id))
        } else {
            Ok(bm.insert(e.block_id.0, e))
        },
    }
}

/// The bundles after inserting one entry, or why it is refused.
pub open spec fn bundle_insert(bm: Map<u64, BlockView>, bdm: Map<u64, BundleView>, e: BundleView) -> Result<Map<u64, BundleView>, CatalogError> {
    match bundle_check(e, bm) {
        Err(x) => Err(x),
        Ok(_) => if bdm.contains_key(e.bundle_id.0) && bdm[e.bundle_id.0] != e {
            Err(CatalogError::ConflictingBundle(e.bundle_id))
        } else {
            Ok(bdm.insert(e.bundle_id.0, e))
        },
    }
}

impl Default for SharedBlockCatalog {
    fn default() -> (c: Self)
        ensures
            c.wf(),
            c.catalog_version() == BlockCatalogVersion(0),
            c.block_map() == Map::<u64, BlockView>::empty(),
            c.bundle_map() == Map::<u64, BundleView>::empty(),
            c.block_list().len() == 0,
            c.bundle_list().len() == 0,
    {
        let c = SharedBlockCatalog { version: BlockCatalogVersion(0), blocks: U64Map::new(), bundles: U64Map::new() };
        assert(c.block_map() =~= Map::<u64, BlockView>::empty());
        assert(c.bundle_map() =~= Map::<u64, BundleView>::empty());
        c
    }
}

impl SharedBlockCatalog {
    pub fn insert_block_entry(&mut self, entry: BlockCatalogEntry) -> (r: Result<BlockId, CatalogError>)
        requires
            old(self).wf(),
        ensures
            final(self).wf(),
            match block_insert(old(self).block_map(), entry@) {
                Err(x) => r == Err::<BlockId, CatalogError>(x) && *final(self) == *old(self),
                Ok(m) => {
                    &&& r == Ok::<BlockId, CatalogError>(entry.block_id)
                    &&& final(self).block_map() == m
                    &&& final(self).bundle_map() == old(self).bundle_map()
                    &&& final(self).bundle_list() == old(self).bundle_list()
                    &&& final(self).catalog_version() == old(self).catalog_version()
                },
            },
    {
        entry.validate()?;
        let block_id = entry.block_id;
        match self.blocks.get(block_id.0) {
            Some(existing) => {
                if !same_block(existing, &entry) {
                    return Err(CatalogError::ConflictingBlock(block_id));
                }
            },
            None => {},
        }
        let ghost before = self.blocks@;
        self.blocks.insert(block_id.0, entry);
        proof {
            self.lemma_insert_keeps_blocks_wf(before, block_id.0);
            assert(self.block_map() =~= old(self).block_map().insert(block_id.0, entry@));
        }
        Ok(block_id)
    }

    proof fn lemma_insert_keeps_blocks_wf(&self, before: Seq<(u64, BlockCatalogEntry)>, k: u64)
        requires
            self.blocks.wf(),
            keyed_sorted_block(before),
            self.blocks.map() == crate::keyed::entries_map(before).insert(k, self.blocks.map()[k]),
            self.blocks.map()[k].block_id.0 == k,
            block_check(self.blocks.map()[k]@) is Ok,
            forall|i: int| 0 <= i < before.len() ==> {
                &&& (#[trigger] before[i]).1.block_id.0 == before[i].0
                &&& block_check(before[i].1@) is Ok
            },
        ensures
            forall|i: int| 0 <= i < self.blocks@.len() ==> {
                &&& (#[trigger] self.blocks@[i]).1.block_id.0 == self.blocks@[i].0
                &&& block_check(self.blocks@[i].1@) is Ok
            },
    {
        assert forall|i: int| 0 <= i < self.blocks@.len() implies {
            &&& (#[trigger] self.blocks@[i]).1.block_id.0 == self.blocks@[i].0
            &&& block_check(self.blocks@[i].1@) is Ok
        } by {
            let key = self.blocks@[i].0;
            crate::keyed::lemma_entries_map_at(self.blocks@, i);
            if key != k {
                let m0 = crate::keyed::entries_map(before);
                assert(m0.contains_key(key));
                let j = choose|j: int| 0 <= j < before.len() && (#[trigger] before[j]).0 == key;
                crate::keyed::lemma_entries_map_at(before, j);
            }
        }
    }
}

pub open spec fn keyed_sorted_block(s: Seq<(u64, BlockCatalogEntry)>) -> bool {
    crate::keyed::keys_sorted(s)
}

impl SharedBlockCatalog {
    pub fn insert_block(&mut self, source_kind: SourceKind, material: Vec<u8>) -> (r: Result<BlockId, CatalogError>)
        requires
            old(self).wf(),
        ensures
            final(self).wf(),
            material@.len() > u32::MAX ==> r == Err::<BlockId, CatalogError>(CatalogError::PayloadTooLarge) && *final(self) == *old(self),
            material@.len() <= u32::MAX ==> match block_insert(old(self).block_map(), block_entry_for(source_kind, material@)) {
                Err(x) => r == Err::<BlockId, CatalogError>(x) && *final(self) == *old(self),
                Ok(m) => {
                    &&& r == Ok::<BlockId, CatalogError>(BlockId(block_id_of(source_kind, sha256_digest(material@))))
                    &&& final(self).block_map() == m
                    &&& final(self).bundle_map() == old(self).bundle_map()
                    &&& final(self).bundle_list() == old(self).bundle_list()
                    &&& final(self).catalog_version() == old(self).catalog_version()
                },
            },
    {
        let entry = BlockCatalogEntry::from_bytes(source_kind, material)?;
        self.insert_block_entry(entry)
    }

    pub fn insert_exact_material(&mut self, material: &ExactStateMaterial) -> (r: Result<BlockId, CatalogError>)
        requires
            old(self).wf(),
        ensures
            final(self).wf(),
            material.exact_bytes@.len() > u32::MAX ==> r == Err::<BlockId, CatalogError>(CatalogError::PayloadTooLarge) && *final(self) == *old(self),
            material.exact_bytes@.len() <= u32::MAX ==> match block_insert(old(self).block_map(), block_entry_for(material.source_kind, material.exact_bytes@)) {
                Err(x) => r == Err::<BlockId, CatalogError>(x) && *final(self) == *old(self),
                Ok(m) => {
                    &&& r == Ok::<BlockId, CatalogError>(BlockId(block_id_of(material.source_kind, sha256_digest(material.exact_bytes@))))
                    &&& final(self).block_map() == m
                    &&& final(self).bundle_map() == old(self).bundle_map()
                    &&& final(self).bundle_list() == old(self).bundle_list()
                    &&& final(self).catalog_version() == old(self).catalog_version()
                },
            },
    {
        let bytes = copy_range(material.exact_bytes.as_slice(), 0, material.exact_bytes.len());
        assert(bytes@ =~= material.exact_bytes@);
        self.insert_block(material.source_kind, bytes)
    }

    pub fn insert_bundle_entry(&mut self, entry: BundleCatalogEntry) -> (r: Result<BundleId, CatalogError>)
        requires
            old(self).wf(),
        ensures
            final(self).wf(),
            match bundle_insert(old(self).block_map(), old(self).bundle_map(), entry@) {
                Err(x) => r == Err::<BundleId, CatalogError>(x) && *final(self) == *old(self),
                Ok(m) => {
                    &&& r == Ok::<BundleId, CatalogError>(entry.bundle_id)
                    &&& final(self).bundle_map() == m
                    &&& final(self).block_map() == old(self).block_map()
                    &&& final(self).block_list() == old(self).block_list()
                    &&& final(self).catalog_version() == old(self).catalog_version()
                },
            },
    {
        entry.validate_with_catalog(self)?;
        let bundle_id = entry.bundle_id;
        match self.bundles.get(bundle_id.0) {
            Some(existing) => {
                if !same_bundle(existing, &entry) {
                    return Err(CatalogError::ConflictingBundle(bundle_id));
                }
            },
            None => {},
        }
        let ghost before = self.bundles@;
        self.bundles.insert(bundle_id.0, entry);
        proof {
            assert forall|i: int| 0 <= i < self.bundles@.len() implies (#[trigger] self.bundles@[i]).1.bundle_id.0 == self.bundles@[i].0 by {
                let key = self.bundles@[i].0;
                crate::keyed::lemma_entries_map_at(self.bundles@, i);
                if key != bundle_id.0 {
                    let m0 = crate::keyed::entries_map(before);
                    assert(m0.contains_key(key));
                    let j = choose|j: int| 0 <= j < before.len() && (#[trigger] before[j]).0 == key;
                    crate::keyed::lemma_entries_map_at(before, j);
                }
            }
            assert(self.bundle_map() =~= old(self).bundle_map().insert(bundle_id.0, entry@));
        }
        Ok(bundle_id)
    }

    pub fn define_bundle(&mut self, members: Vec<BundleMember>) -> (r: Result<BundleId, CatalogError>)
        requires
            old(self).wf(),
        ensures
            final(self).wf(),
            match bundle_entry_from(old(self).block_map(), members@) {
                Err(x) => r == Err::<BundleId, CatalogError>(x) && *final(self) == *old(self),
                Ok(b) => match bundle_insert(old(self).block_map(), old(self).bundle_map(), b) {
                    Err(x) => r == Err::<BundleId, CatalogError>(x) && *final(self) == *old(self),
                    Ok(m) => {
                        &&& r == Ok::<BundleId, CatalogError>(b.bundle_id)
                        &&& final(self).bundle_map() == m
                        &&& final(self).block_map() == old(self).block_map()
                        &&& final(self).block_list() == old(self).block_list()
                        &&& final(self).catalog_version() == old(self).catalog_version()
                    },
                },
            },
    {
        let entry = BundleCatalogEntry::from_members(members, self)?;
        self.insert_bundle_entry(entry)
    }

    /// The first block, in id order, whose bytes are `material`.
    pub fn exact_block_for_material(&self, material: &[u8]) -> (r: Option<&BlockCatalogEntry>)
        requires
            self.wf(),
        ensures
            match r {
                Some(e) => exists|i: int| {
                    &&& 0 <= i < self.block_list().len()
                    &&& #[trigger] self.block_list()[i] == e@
                    &&& e.material@ == material@
                    &&& forall|j: int| 0 <= j < i ==> (#[trigger] self.block_list()[j]).material != material@
                },
                None => forall|j: int| 0 <= j < self.block_list().len() ==> (#[trigger] self.block_list()[j]).material != material@,
            },
    {
        let mut i: usize = 0;
        while i < self.blocks.len()
            invariant
                i <= self.blocks@.len(),
                forall|j: int| 0 <= j < i ==> (#[trigger] self.block_list()[j]).material != material@,
            decreases self.blocks@.len() - i,
        {
            let e = self.blocks.value_at(i);
            if bytes_equal(e.material.as_slice(), material) {
                assert(self.block_list()[i as int] == e@);
                return Some(e);
            }
            i = i + 1;
        }
        None
    }

    /// The first bundle, in id order, whose recorded length is that of
    /// `material` and whose bytes are `material`.
    pub fn exact_bundle_for_material(&self, material: &[u8]) -> (r: Option<&BundleCatalogEntry>)
        requires
            self.wf(),
        ensures
            match r {
                Some(e) => exists|i: int| {
                    &&& 0 <= i < self.bundle_list().len()
                    &&& #[trigger] self.bundle_list()[i] == e@
                    &&& bundle_matches_material(self.block_map(), self.bundle_map(), e@, material@)
                    &&& forall|j: int| 0 <= j < i ==> !bundle_matches_material(self.block_map(), self.bundle_map(), #[trigger] self.bundle_list()[j], material@)
                },
                None => forall|j: int| 0 <= j < self.bundle_list().len() ==> !bundle_matches_material(self.block_map(), self.bundle_map(), #[trigger] self.bundle_list()[j], material@),
            },
    {
        let mut i: usize = 0;
        while i < self.bundles.len()
            invariant
                self.wf(),
                i <= self.bundles@.len(),
                forall|j: int| 0 <= j < i ==> !bundle_matches_material(self.block_map(), self.bundle_map(), #[trigger] self.bundle_list()[j], material@),
            decreases self.bundles@.len() - i,
        {
            let e = self.bundles.value_at(i);
            assert(self.bundle_list()[i as int] == e@);
            if e.byte_len as usize == material.len() {
                match self.materialize_bundle(e.bundle_id) {
                    Ok(bytes) => {
                        if bytes_equal(bytes.as_slice(), material) {
                            return Some(e);
                        }
                    },
                    Err(_) => {},
                }
            }
            i = i + 1;
        }
        None
    }
}

/// A bundle stands for `material`: same recorded length, and its id
/// materializes to exactly those bytes.
pub open spec fn bundle_matches_material(bm: Map<u64, BlockView>, bdm: Map<u64, BundleView>, b: BundleView, material: Seq<u8>) -> bool {
    b.byte_len == material.len() && bundle_material(bm, bdm, b.bundle_id) == Ok::<Seq<u8>, CatalogError>(material)
}

// ---------------------------------------------------------------------------
// Sync and repair payloads
// ---------------------------------------------------------------------------

#[derive(Debug, Clone, PartialEq, Eq)]
pub struct CatalogSyncPayload {
    pub payload_version: u8,
    pub catalog_version: BlockCatalogVersion,
    pub blocks: Vec<BlockCatalogEntry>,
    pub bundles: Vec<BundleCatalogEntry>,
}

#[derive(Debug, Clone, Copy, PartialEq, Eq, Default, Structural)]
pub struct CatalogSyncSummary {
    pub catalog_version: BlockCatalogVersion,
    pub block_count: usize,
    pub bundle_count: usize,
    pub exact_block_bytes: usize,
}

#[derive(Debug, Clone, PartialEq, Eq)]
pub enum RepairCause {
    MissingBasis,
    CatalogVersionMismatch { local: BlockCatalogVersion, required: BlockCatalogVersion },
    UnsupportedStateReference { detail: String },
}

#[derive(Debug, Clone, PartialEq, Eq)]
pub struct RepairRequest {
    pub catalog_version: BlockCatalogVersion,
    pub missing_blocks: Vec<BlockId>,
    pub missing_bundles: Vec<BundleId>,
    pub cause: RepairCause,
}

#[derive(Debug, Clone, PartialEq, Eq)]
pub enum RepairPayload {
    Request { payload_version: u8, request: RepairRequest },
    Response { payload_version: u8, sync: CatalogSyncPayload },
}

pub open spec fn block_views(s: Seq<BlockCatalogEntry>) -> Seq<BlockView> {
    s.map_values(|e: BlockCatalogEntry| e@)
}

pub open spec fn bundle_views(s: Seq<BundleCatalogEntry>) -> Seq<BundleView> {
    s.map_values(|e: BundleCatalogEntry| e@)
}

/// Whether `x` occurs in `s`.
pub open spec fn has_id(s: Seq<u64>, x: u64) -> bool {
    exists|i: int| 0 <= i < s.len() && s[i] == x
}

/// The first value in `s` that repeats an earlier one, if any.
pub open spec fn first_repeat(s: Seq<u64>) -> Option<u64>
    decreases s.len(),
{
    if s.len() == 0 {
        None
    } else {
        match first_repeat(s.drop_last()) {
            Some(x) => Some(x),
            None => if has_id(s.drop_last(), s.last()) {
                Some(s.last())
            } else {
                None
            },
        }
    }
}

pub open spec fn block_id_values(s: Seq<BlockView>) -> Seq<u64> {
    s.map_values(|b: BlockView| b.block_id.0)
}

pub open spec fn bundle_id_values(s: Seq<BundleView>) -> Seq<u64> {
    s.map_values(|b: BundleView| b.bundle_id.0)
}

/// The sync blocks checked in order: each is validated, then checked
/// against the ids before it.
pub open spec fn sync_blocks_check(s: Seq<BlockView>) -> Result<(), CatalogError>
    decreases s.len(),
{
    if s.len() == 0 {
        Ok(())
    } else {
        match sync_blocks_check(s.drop_last()) {
            Err(e) => Err(e),
            Ok(_) => match block_check(s.last()) {
                Err(e) => Err(e),
                Ok(_) => if has_id(block_id_values(s.drop_last()), s.last().block_id.0) {
                    Err(CatalogError::DuplicateBlock(s.last().block_id))
                } else {
                    Ok(())
                },
            },
        }
    }
}

/// What the basic validation of a sync payload gives.
pub open spec fn sync_payload_check(version: u8, blocks: Seq<BlockView>, bundles: Seq<BundleView>) -> Result<(), CatalogError> {
    if version != CATALOG_SYNC_PAYLOAD_VERSION {
        Err(CatalogError::InvalidCatalogPayloadVersion(version))
    } else if blocks.len() > MAX_CATALOG_SYNC_BLOCKS {
        Err(CatalogError::TooManySyncBlocks(blocks.len() as usize))
    } else if bundles.len() > MAX_CATALOG_SYNC_BUNDLES {
        Err(CatalogError::TooManySyncBundles(bundles.len() as usize))
    } else {
        match sync_blocks_check(blocks) {
            Err(e) => Err(e),
            Ok(_) => match first_repeat(bundle_id_values(bundles)) {
                Some(x) => Err(CatalogError::DuplicateBundle(BundleId(x))),
                None => Ok(()),
            },
        }
    }
}

/// What validating a repair request gives.
pub open spec fn repair_request_check(blocks: Seq<BlockId>, bundles: Seq<BundleId>, cause: RepairCause) -> Result<(), CatalogError> {
    match first_repeat(blocks.map_values(|b: BlockId| b.0)) {
        Some(x) => Err(CatalogError::DuplicateBlock(BlockId(x))),
        None => match first_repeat(bundles.map_values(|b: BundleId| b.0)) {
            Some(x) => Err(CatalogError::DuplicateBundle(BundleId(x))),
            None => if blocks.len() == 0 && bundles.len() == 0 && cause is MissingBasis {
                Err(CatalogError::EmptyRepairRequest)
            } else {
                Ok(())
            },
        },
    }
}

fn ids_contain(v: &Vec<u64>, x: u64) -> (r: bool)
    ensures
        r == has_id(v@, x),
{
    let mut i: usize = 0;
    while i < v.len()
        invariant
            i <= v@.len(),
            forall|j: int| 0 <= j < i ==> v@[j] != x,
        decreases v@.len() - i,
    {
        if v[i] == x {
            return true;
        }
        i = i + 1;
    }
    false
}

/// The first repeated value of `s`.
fn find_repeat(s: &Vec<u64>) -> (r: Option<u64>)
    ensures
        r == first_repeat(s@),
{
    let mut seen: Vec<u64> = Vec::new();
    let mut i: usize = 0;
    while i < s.len()
        invariant
            i <= s@.len(),
            seen@ == s@.take(i as int),
            first_repeat(s@.take(i as int)) is None,
        decreases s@.len() - i,
    {
        proof {
            assert(s@.take(i + 1).drop_last() =~= s@.take(i as int));
        }
        let x = s[i];
        if ids_contain(&seen, x) {
            proof {
                lemma_first_repeat_extends(s@, i as int + 1);
            }
            return Some(x);
        }
        seen.push(x);
        i = i + 1;
        assert(seen@ =~= s@.take(i as int));
    }
    assert(s@.take(i as int) =~= s@);
    None
}

/// Once a prefix repeats a value, the whole sequence reports that repeat.
proof fn lemma_first_repeat_extends(s: Seq<u64>, n: int)
    requires
        0 <= n <= s.len(),
        first_repeat(s.take(n)) is Some,
    ensures
        first_repeat(s) == first_repeat(s.take(n)),
    decreases s.len() - n,
{
    if n < s.len() {
        assert(s.take(n + 1).drop_last() =~= s.take(n));
        lemma_first_repeat_extends(s, n + 1);
    } else {
        assert(s.take(n) =~= s);
    }
}

proof fn lemma_sync_blocks_err_extends(s: Seq<BlockView>, n: int)
    requires
        0 <= n <= s.len(),
        sync_blocks_check(s.take(n)) is Err,
    ensures
        sync_blocks_check(s) == sync_blocks_check(s.take(n)),
    decreases s.len() - n,
{
    if n < s.len() {
        assert(s.take(n + 1).drop_last() =~= s.take(n));
        lemma_sync_blocks_err_extends(s, n + 1);
    } else {
        assert(s.take(n) =~= s);
    }
}

impl CatalogSyncPayload {
    pub fn new(catalog_version: BlockCatalogVersion, blocks: Vec<BlockCatalogEntry>, bundles: Vec<BundleCatalogEntry>) -> (p: Self)
        ensures
            p.payload_version == CATALOG_SYNC_PAYLOAD_VERSION,
            p.catalog_version == catalog_version,
            p.blocks@ == blocks@,
            p.bundles@ == bundles@,
    {
        CatalogSyncPayload { payload_version: CATALOG_SYNC_PAYLOAD_VERSION, catalog_version, blocks, bundles }
    }

    pub fn validate_basic(&self) -> (r: Result<(), CatalogError>)
        ensures
            r == sync_payload_check(self.payload_version, block_views(self.blocks@), bundle_views(self.bundles@)),
    {
        if self.payload_version != CATALOG_SYNC_PAYLOAD_VERSION {
            return Err(CatalogError::InvalidCatalogPayloadVersion(self.payload_version));
        }
        if self.blocks.len() > MAX_CATALOG_SYNC_BLOCKS {
            return Err(CatalogError::TooManySyncBlocks(self.blocks.len()));
        }
        if self.bundles.len() > MAX_CATALOG_SYNC_BUNDLES {
            return Err(CatalogError::TooManySyncBundles(self.bundles.len()));
        }
        let ghost bv = block_views(self.blocks@);
        let mut seen: Vec<u64> = Vec::new();
        let mut i: usize = 0;
        while i < self.blocks.len()
            invariant
                i <= self.blocks@.len(),
                self.payload_version == CATALOG_SYNC_PAYLOAD_VERSION,
                self.blocks@.len() <= MAX_CATALOG_SYNC_BLOCKS,
                self.bundles@.len() <= MAX_CATALOG_SYNC_BUNDLES,
                bv == block_views(self.blocks@),
                seen@ == block_id_values(bv.take(i as int)),
                sync_blocks_check(bv.take(i as int)) is Ok,
            decreases self.blocks@.len() - i,
        {
            proof {
                assert(bv.take(i + 1).drop_last() =~= bv.take(i as int));
                assert(bv.take(i + 1).last() == self.blocks@[i as int]@);
            }
            let block = &self.blocks[i];
            match block.validate() {
                Err(e) => {
                    proof {
                        assert(sync_blocks_check(bv.take(i + 1)) == Err::<(), CatalogError>(e));
                        lemma_sync_blocks_err_extends(bv, i as int + 1);
                    }
                    return Err(e);
                },
                Ok(_) => {},
            }
            if ids_contain(&seen, block.block_id.0) {
                proof {
                    assert(sync_blocks_check(bv.take(i + 1)) == Err::<(), CatalogError>(CatalogError::DuplicateBlock(block.block_id)));
                    lemma_sync_blocks_err_extends(bv, i as int + 1);
                }
                return Err(CatalogError::DuplicateBlock(block.block_id));
            }
            seen.push(block.block_id.0);
            i = i + 1;
            assert(seen@ =~= block_id_values(bv.take(i as int)));
        }
        assert(bv.take(i as int) =~= bv);
        let mut bundle_ids: Vec<u64> = Vec::new();
        let mut j: usize = 0;
        while j < self.bundles.len()
            invariant
                j <= self.bundles@.len(),
                bundle_ids@ == bundle_id_values(bundle_views(self.bundles@)).take(j as int),
            decreases self.bundles@.len() - j,
        {
            bundle_ids.push(self.bundles[j].bundle_id.0);
            j = j + 1;
            assert(bundle_ids@ =~= bundle_id_values(bundle_views(self.bundles@)).take(j as int));
        }
        assert(bundle_ids@ =~= bundle_id_values(bundle_views(self.bundles@)));
        match find_repeat(&bundle_ids) {
            Some(x) => Err(CatalogError::DuplicateBundle(BundleId(x))),
            None => Ok(()),
        }
    }
}

impl RepairRequest {
    pub fn missing_basis(catalog_version: BlockCatalogVersion, missing_blocks: Vec<BlockId>, missing_bundles: Vec<BundleId>) -> (r: Self)
        ensures
            r.catalog_version == catalog_version,
            r.missing_blocks@ == missing_blocks@,
            r.missing_bundles@ == missing_bundles@,
            r.cause == RepairCause::MissingBasis,
    {
        RepairRequest { catalog_version, missing_blocks, missing_bundles, cause: RepairCause::MissingBasis }
    }

    pub fn validate(&self) -> (r: Result<(), CatalogError>)
        ensures
            r == repair_request_check(self.missing_blocks@, self.missing_bundles@, self.cause),
    {
        let mut block_ids: Vec<u64> = Vec::new();
        let mut i: usize = 0;
        while i < self.missing_blocks.len()
            invariant
                i <= self.missing_blocks@.len(),
                block_ids@ == self.missing_blocks@.map_values(|b: BlockId| b.0).take(i as int),
            decreases self.missing_blocks@.len() - i,
        {
            block_ids.push(self.missing_blocks[i].0);
            i = i + 1;
            assert(block_ids@ =~= self.missing_blocks@.map_values(|b: BlockId| b.0).take(i as int));
        }
        assert(block_ids@ =~= self.missing_blocks@.map_values(|b: BlockId| b.0));
        match find_repeat(&block_ids) {
            Some(x) => return Err(CatalogError::DuplicateBlock(BlockId(x))),
            None => {},
        }
        let mut bundle_ids: Vec<u64> = Vec::new();
        let mut j: usize = 0;
        while j < self.missing_bundles.len()
            invariant
                j <= self.missing_bundles@.len(),
                bundle_ids@ == self.missing_bundles@.map_values(|b: BundleId| b.0).take(j as int),
            decreases self.missing_bundles@.len() - j,
        {
            bundle_ids.push(self.missing_bundles[j].0);
            j = j + 1;
            assert(bundle_ids@ =~= self.missing_bundles@.map_values(|b: BundleId| b.0).take(j as int));
        }
        assert(bundle_ids@ =~= self.missing_bundles@.map_values(|b: BundleId| b.0));
        match find_repeat(&bundle_ids) {
            Some(x) => return Err(CatalogError::DuplicateBundle(BundleId(x))),
            None => {},
        }
        let basis = match self.cause {
            RepairCause::MissingBasis => true,
            _ => false,
        };
        if self.missing_blocks.len() == 0 && self.missing_bundles.len() == 0 && basis {
            return Err(CatalogError::EmptyRepairRequest);
        }
        Ok(())
    }
}

/// What validating a repair payload gives.
pub open spec fn repair_payload_check(p: RepairPayload) -> Result<(), CatalogError> {
    match p {
        RepairPayload::Request { payload_version, request } => if payload_version != REPAIR_PAYLOAD_VERSION {
            Err(CatalogError::InvalidRepairPayloadVersion(payload_version))
        } else {
            repair_request_check(request.missing_blocks@, request.missing_bundles@, request.cause)
        },
        RepairPayload::Response { payload_version, sync } => if payload_version != REPAIR_PAYLOAD_VERSION {
            Err(CatalogError::InvalidRepairPayloadVersion(payload_version))
        } else {
            sync_payload_check(sync.payload_version, block_views(sync.blocks@), bundle_views(sync.bundles@))
        },
    }
}

impl RepairPayload {
    pub fn request(request: RepairRequest) -> (p: Self)
        ensures
            p == (RepairPayload::Request { payload_version: REPAIR_PAYLOAD_VERSION, request }),
    {
        RepairPayload::Request { payload_version: REPAIR_PAYLOAD_VERSION, request }
    }

    pub fn response(sync: CatalogSyncPayload) -> (p: Self)
        ensures
            p == (RepairPayload::Response { payload_version: REPAIR_PAYLOAD_VERSION, sync }),
    {
        RepairPayload::Response { payload_version: REPAIR_PAYLOAD_VERSION, sync }
    }

    pub fn validate(&self) -> (r: Result<(), CatalogError>)
        ensures
            r == repair_payload_check(*self),
    {
        match self {
            RepairPayload::Request { payload_version, request } => {
                if *payload_version != REPAIR_PAYLOAD_VERSION {
                    return Err(CatalogError::InvalidRepairPayloadVersion(*payload_version));
                }
                request.validate()
            },
            RepairPayload::Response { payload_version, sync } => {
                if *payload_version != REPAIR_PAYLOAD_VERSION {
                    return Err(CatalogError::InvalidRepairPayloadVersion(*payload_version));
                }
                sync.validate_basic()
            },
        }
    }
}

// ---------------------------------------------------------------------------
// Applying a sync
// ---------------------------------------------------------------------------

/// The blocks after inserting `s` in order, or the first refusal.
pub open spec fn insert_blocks(bm: Map<u64, BlockView>, s: Seq<BlockView>) -> Result<Map<u64, BlockView>, CatalogError>
    decreases s.len(),
{
    if s.len() == 0 {
        Ok(bm)
    } else {
        match insert_blocks(bm, s.drop_last()) {
            Err(e) => Err(e),
            Ok(m) => block_insert(m, s.last()),
        }
    }
}

/// The bundles after inserting `s` in order against the blocks `bm`, or the
/// first refusal.
pub open spec fn insert_bundles(bm: Map<u64, BlockView>, bdm: Map<u64, BundleView>, s: Seq<BundleView>) -> Result<Map<u64, BundleView>, CatalogError>
    decreases s.len(),
{
    if s.len() == 0 {
        Ok(bdm)
    } else {
        match insert_bundles(bm, bdm, s.drop_last()) {
            Err(e) => Err(e),
            Ok(m) => bundle_insert(bm, m, s.last()),
        }
    }
}

/// The total length of the blocks' bytes.
pub open spec fn material_total(s: Seq<BlockView>) -> nat
    decreases s.len(),
{
    if s.len() == 0 {
        0
    } else {
        material_total(s.drop_last()) + s.last().material.len()
    }
}

/// What applying a sync payload to a catalog gives: the new version, blocks
/// and bundles, or the first refusal. A payload older than the catalog is
/// refused; blocks go in before bundles, so bundles may use them.
pub open spec fn sync_outcome(
    version: BlockCatalogVersion,
    bm: Map<u64, BlockView>,
    bdm: Map<u64, BundleView>,
    p: CatalogSyncPayload,
) -> Result<(BlockCatalogVersion, Map<u64, BlockView>, Map<u64, BundleView>), CatalogError> {
    match sync_payload_check(p.payload_version, block_views(p.blocks@), bundle_views(p.bundles@)) {
        Err(e) => Err(e),
        Ok(_) => if p.catalog_version.0 < version.0 {
            Err(CatalogError::StaleCatalogVersion { current: version, incoming: p.catalog_version })
        } else {
            match insert_blocks(bm, block_views(p.blocks@)) {
                Err(e) => Err(e),
                Ok(bm2) => match insert_bundles(bm2, bdm, bundle_views(p.bundles@)) {
                    Err(e) => Err(e),
                    Ok(bdm2) => Ok((p.catalog_version, bm2, bdm2)),
                },
            }
        },
    }
}

proof fn lemma_insert_blocks_keeps(bm: Map<u64, BlockView>, s: Seq<BlockView>)
    ensures
        insert_blocks(bm, s) matches Ok(m) ==> forall|k: u64|
            #[trigger] bm.contains_key(k) ==> m.contains_key(k) && m[k] == bm[k],
    decreases s.len(),
{
    if s.len() > 0 {
        lemma_insert_blocks_keeps(bm, s.drop_last());
    }
}

proof fn lemma_insert_bundles_keeps(bm: Map<u64, BlockView>, bdm: Map<u64, BundleView>, s: Seq<BundleView>)
    ensures
        insert_bundles(bm, bdm, s) matches Ok(m) ==> forall|k: u64|
            #[trigger] bdm.contains_key(k) ==> m.contains_key(k) && m[k] == bdm[k],
    decreases s.len(),
{
    if s.len() > 0 {
        lemma_insert_bundles_keeps(bm, bdm, s.drop_last());
    }
}

proof fn lemma_insert_blocks_adds(bm: Map<u64, BlockView>, s: Seq<BlockView>)
    ensures
        insert_blocks(bm, s) matches Ok(m) ==> forall|i: int|
            0 <= i < s.len() ==> m.contains_key((#[trigger] s[i]).block_id.0) && m[s[i].block_id.0] == s[i],
    decreases s.len(),
{
    if s.len() > 0 {
        lemma_insert_blocks_adds(bm, s.drop_last());
        if let Ok(m) = insert_blocks(bm, s) {
            let m0 = insert_blocks(bm, s.drop_last())->Ok_0;
            assert forall|i: int| 0 <= i < s.len() implies m.contains_key((#[trigger] s[i]).block_id.0) && m[s[i].block_id.0] == s[i] by {
                if i < s.len() - 1 {
                    assert(s.drop_last()[i] == s[i]);
                    assert(m0.contains_key(s[i].block_id.0));
                }
            }
        }
    }
}

proof fn lemma_insert_bundles_adds(bm: Map<u64, BlockView>, bdm: Map<u64, BundleView>, s: Seq<BundleView>)
    ensures
        insert_bundles(bm, bdm, s) matches Ok(m) ==> forall|i: int|
            0 <= i < s.len() ==> m.contains_key((#[trigger] s[i]).bundle_id.0) && m[s[i].bundle_id.0] == s[i],
    decreases s.len(),
{
    if s.len() > 0 {
        lemma_insert_bundles_adds(bm, bdm, s.drop_last());
        if let Ok(m) = insert_bundles(bm, bdm, s) {
            let m0 = insert_bundles(bm, bdm, s.drop_last())->Ok_0;
            assert forall|i: int| 0 <= i < s.len() implies m.contains_key((#[trigger] s[i]).bundle_id.0) && m[s[i].bundle_id.0] == s[i] by {
                if i < s.len() - 1 {
                    assert(s.drop_last()[i] == s[i]);
                    assert(m0.contains_key(s[i].bundle_id.0));
                }
            }
        }
    }
}

/// A sync that is accepted holds every block and bundle it carried, each as
/// carried, and takes the payload's version.
pub proof fn lemma_sync_adds_entries(
    version: BlockCatalogVersion,
    bm: Map<u64, BlockView>,
    bdm: Map<u64, BundleView>,
    p: CatalogSyncPayload,
)
    ensures
        sync_outcome(version, bm, bdm, p) matches Ok((v, bm2, bdm2)) ==> {
            &&& v == p.catalog_version
            &&& forall|i: int| 0 <= i < p.blocks@.len() ==> bm2.contains_key((#[trigger] block_views(p.blocks@)[i]).block_id.0)
                && bm2[block_views(p.blocks@)[i].block_id.0] == block_views(p.blocks@)[i]
            &&& forall|i: int| 0 <= i < p.bundles@.len() ==> bdm2.contains_key((#[trigger] bundle_views(p.bundles@)[i]).bundle_id.0)
                && bdm2[bundle_views(p.bundles@)[i].bundle_id.0] == bundle_views(p.bundles@)[i]
        },
{
    lemma_insert_blocks_adds(bm, block_views(p.blocks@));
    if let Ok(bm2) = insert_blocks(bm, block_views(p.blocks@)) {
        lemma_insert_bundles_adds(bm2, bdm, bundle_views(p.bundles@));
    }
}

/// A sync that is accepted keeps every block and bundle the catalog held, each
/// unchanged, and does not lower the catalog version: a sync only adds.
pub proof fn lemma_sync_keeps_entries(
    version: BlockCatalogVersion,
    bm: Map<u64, BlockView>,
    bdm: Map<u64, BundleView>,
    p: CatalogSyncPayload,
)
    ensures
        sync_outcome(version, bm, bdm, p) matches Ok((v, bm2, bdm2)) ==> {
            &&& v.0 >= version.0
            &&& forall|k: u64| #[trigger] bm.contains_key(k) ==> bm2.contains_key(k) && bm2[k] == bm[k]
            &&& forall|k: u64| #[trigger] bdm.contains_key(k) ==> bdm2.contains_key(k) && bdm2[k] == bdm[k]
        },
{
    lemma_insert_blocks_keeps(bm, block_views(p.blocks@));
    if let Ok(bm2) = insert_blocks(bm, block_views(p.blocks@)) {
        lemma_insert_bundles_keeps(bm2, bdm, bundle_views(p.bundles@));
    }
}

proof fn lemma_insert_blocks_err_extends(bm: Map<u64, BlockView>, s: Seq<BlockView>, n: int)
    requires
        0 <= n <= s.len(),
        insert_blocks(bm, s.take(n)) is Err,
    ensures
        insert_blocks(bm, s) == insert_blocks(bm, s.take(n)),
    decreases s.len() - n,
{
    if n < s.len() {
        assert(s.take(n + 1).drop_last() =~= s.take(n));
        lemma_insert_blocks_err_extends(bm, s, n + 1);
    } else {
        assert(s.take(n) =~= s);
    }
}

proof fn lemma_insert_bundles_err_extends(bm: Map<u64, BlockView>, bdm: Map<u64, BundleView>, s: Seq<BundleView>, n: int)
    requires
        0 <= n <= s.len(),
        insert_bundles(bm, bdm, s.take(n)) is Err,
    ensures
        insert_bundles(bm, bdm, s) == insert_bundles(bm, bdm, s.take(n)),
    decreases s.len() - n,
{
    if n < s.len() {
        assert(s.take(n + 1).drop_last() =~= s.take(n));
        lemma_insert_bundles_err_extends(bm, bdm, s, n + 1);
    } else {
        assert(s.take(n) =~= s);
    }
}

proof fn lemma_material_total_prefix(s: Seq<BlockView>, n: int)
    requires
        0 <= n <= s.len(),
    ensures
        material_total(s.take(n)) <= material_total(s),
    decreases s.len() - n,
{
    if n < s.len() {
        assert(s.take(n + 1).drop_last() =~= s.take(n));
        lemma_material_total_prefix(s, n + 1);
    } else {
        assert(s.take(n) =~= s);
    }
}

/// Two sorted entry lists with the same keys at the same places and values
/// with the same views stand for the same map of views.
proof fn lemma_same_view_maps<V, W>(a: Seq<(u64, V)>, b: Seq<(u64, V)>, f: spec_fn(V) -> W)
    requires
        crate::keyed::keys_sorted(a),
        crate::keyed::keys_sorted(b),
        a.len() == b.len(),
        forall|i: int| 0 <= i < a.len() ==> (#[trigger] a[i]).0 == b[i].0 && f(a[i].1) == f(b[i].1),
    ensures
        crate::keyed::entries_map(a).map_values(f) == crate::keyed::entries_map(b).map_values(f),
{
    let ma = crate::keyed::entries_map(a);
    let mb = crate::keyed::entries_map(b);
    assert forall|k: u64| ma.contains_key(k) <==> mb.contains_key(k) by {
        if ma.contains_key(k) {
            let i = choose|i: int| 0 <= i < a.len() && (#[trigger] a[i]).0 == k;
            assert(b[i].0 == k);
        }
        if mb.contains_key(k) {
            let i = choose|i: int| 0 <= i < b.len() && (#[trigger] b[i]).0 == k;
            assert(a[i].0 == k);
        }
    }
    assert forall|k: u64| #[trigger] ma.contains_key(k) implies f(ma[k]) == f(mb[k]) by {
        let i = choose|i: int| 0 <= i < a.len() && (#[trigger] a[i]).0 == k;
        crate::keyed::lemma_entries_map_at(a, i);
        crate::keyed::lemma_entries_map_at(b, i);
    }
    assert(ma.map_values(f) =~= mb.map_values(f));
}

impl SharedBlockCatalog {
    /// A copy of the catalog with entries equal in every field.
    fn deep_copy(&self) -> (c: Self)
        requires
            self.wf(),
        ensures
            c.wf(),
            c.catalog_version() == self.catalog_version(),
            c.block_map() == self.block_map(),
            c.bundle_map() == self.bundle_map(),
            c.block_list() == self.block_list(),
            c.bundle_list() == self.bundle_list(),
    {
        let mut blocks: U64Map<BlockCatalogEntry> = U64Map::new();
        let mut i: usize = 0;
        while i < self.blocks.len()
            invariant
                self.wf(),
                i <= self.blocks@.len(),
                blocks.wf(),
                blocks@.len() == i,
                forall|j: int| 0 <= j < i ==> (#[trigger] blocks@[j]).0 == self.blocks@[j].0 && blocks@[j].1@ == self.blocks@[j].1@,
            decreases self.blocks@.len() - i,
        {
            let k = self.blocks.key_at(i);
            let e = copy_block_entry(self.blocks.value_at(i));
            proof {
                assert forall|j: int| 0 <= j < blocks@.len() implies (#[trigger] blocks@[j]).0 < k by {
                    assert(self.blocks@[j].0 < self.blocks@[i as int].0);
                }
            }
            blocks.push_greatest(k, e);
            i = i + 1;
        }
        let mut bundles: U64Map<BundleCatalogEntry> = U64Map::new();
        let mut j: usize = 0;
        while j < self.bundles.len()
            invariant
                self.wf(),
                j <= self.bundles@.len(),
                bundles.wf(),
                bundles@.len() == j,
                forall|t: int| 0 <= t < j ==> (#[trigger] bundles@[t]).0 == self.bundles@[t].0 && bundles@[t].1@ == self.bundles@[t].1@,
            decreases self.bundles@.len() - j,
        {
            let k = self.bundles.key_at(j);
            let e = copy_bundle_entry(self.bundles.value_at(j));
            proof {
                assert forall|t: int| 0 <= t < bundles@.len() implies (#[trigger] bundles@[t]).0 < k by {
                    assert(self.bundles@[t].0 < self.bundles@[j as int].0);
                }
            }
            bundles.push_greatest(k, e);
            j = j + 1;
        }
        let c = SharedBlockCatalog { version: self.version, blocks, bundles };
        proof {
            lemma_same_view_maps(c.blocks@, self.blocks@, |e: BlockCatalogEntry| e@);
            lemma_same_view_maps(c.bundles@, self.bundles@, |e: BundleCatalogEntry| e@);
            assert(c.block_list() =~= self.block_list());
            assert(c.bundle_list() =~= self.bundle_list());
            assert forall|t: int| 0 <= t < c.blocks@.len() implies {
                &&& (#[trigger] c.blocks@[t]).1.block_id.0 == c.blocks@[t].0
                &&& block_check(c.blocks@[t].1@) is Ok
            } by {
                assert(self.blocks@[t].1.block_id.0 == self.blocks@[t].0);
            }
            assert forall|t: int| 0 <= t < c.bundles@.len() implies (#[trigger] c.bundles@[t]).1.bundle_id.0 == c.bundles@[t].0 by {
                assert(self.bundles@[t].1.bundle_id.0 == self.bundles@[t].0);
            }
        }
        c
    }

    /// Applies a sync payload: on success the catalog takes the payload's
    /// version and its blocks and bundles; on any refusal it is unchanged.
    pub fn apply_sync(&mut self, payload: CatalogSyncPayload) -> (r: Result<CatalogSyncSummary, CatalogError>)
        requires
            old(self).wf(),
            material_total(block_views(payload.blocks@)) <= usize::MAX,
        ensures
            final(self).wf(),
            match sync_outcome(old(self).catalog_version(), old(self).block_map(), old(self).bundle_map(), payload) {
                Err(e) => r == Err::<CatalogSyncSummary, CatalogError>(e) && *final(self) == *old(self),
                Ok((v, bm, bdm)) => {
                    &&& r == Ok::<CatalogSyncSummary, CatalogError>(CatalogSyncSummary {
                        catalog_version: v,
                        block_count: payload.blocks@.len() as usize,
                        bundle_count: payload.bundles@.len() as usize,
                        exact_block_bytes: material_total(block_views(payload.blocks@)) as usize,
                    })
                    &&& final(self).catalog_version() == v
                    &&& final(self).block_map() == bm
                    &&& final(self).bundle_map() == bdm
                },
            },
    {
        payload.validate_basic()?;
        if payload.catalog_version.0 < self.version.0 {
            return Err(CatalogError::StaleCatalogVersion { current: self.version, incoming: payload.catalog_version });
        }
        let mut next = self.deep_copy();
        next.insert_entries(&payload.blocks)?;
        next.insert_bundle_entries(&payload.bundles)?;
        let ghost bv = block_views(payload.blocks@);
        next.version = payload.catalog_version;
        let mut total: usize = 0;
        let mut t: usize = 0;
        while t < payload.blocks.len()
            invariant
                t <= payload.blocks@.len(),
                bv == block_views(payload.blocks@),
                material_total(bv) <= usize::MAX,
                total == material_total(bv.take(t as int)),
            decreases payload.blocks@.len() - t,
        {
            proof {
                assert(bv.take(t + 1).drop_last() =~= bv.take(t as int));
                lemma_material_total_prefix(bv, t as int + 1);
            }
            total = total + payload.blocks[t].material.len();
            t = t + 1;
        }
        assert(bv.take(t as int) =~= bv);
        let summary = CatalogSyncSummary {
            catalog_version: next.version,
            block_count: payload.blocks.len(),
            bundle_count: payload.bundles.len(),
            exact_block_bytes: total,
        };
        *self = next;
        Ok(summary)
    }
}

impl SharedBlockCatalog {
    /// Inserts the blocks in order, stopping at the first refusal.
    fn insert_entries(&mut self, blocks: &Vec<BlockCatalogEntry>) -> (r: Result<(), CatalogError>)
        requires
            old(self).wf(),
        ensures
            final(self).wf(),
            match insert_blocks(old(self).block_map(), block_views(blocks@)) {
                Err(e) => r == Err::<(), CatalogError>(e),
                Ok(m) => r is Ok && final(self).block_map() == m && final(self).bundle_map() == old(self).bundle_map()
                    && final(self).catalog_version() == old(self).catalog_version(),
            },
    {
        let ghost bv = block_views(blocks@);
        let mut i: usize = 0;
        while i < blocks.len()
            invariant
                self.wf(),
                i <= blocks@.len(),
                bv == block_views(blocks@),
                insert_blocks(old(self).block_map(), bv.take(i as int)) == Ok::<Map<u64, BlockView>, CatalogError>(self.block_map()),
                self.bundle_map() == old(self).bundle_map(),
                self.catalog_version() == old(self).catalog_version(),
            decreases blocks@.len() - i,
        {
            proof {
                assert(bv.take(i + 1).drop_last() =~= bv.take(i as int));
                assert(bv.take(i + 1).last() == blocks@[i as int]@);
            }
            let entry = copy_block_entry(&blocks[i]);
            match self.insert_block_entry(entry) {
                Err(e) => {
                    proof {
                        lemma_insert_blocks_err_extends(old(self).block_map(), bv, i as int + 1);
                    }
                    return Err(e);
                },
                Ok(_) => {},
            }
            i = i + 1;
        }
        assert(bv.take(i as int) =~= bv);
        Ok(())
    }

    /// Inserts the bundles in order, stopping at the first refusal.
    fn insert_bundle_entries(&mut self, bundles: &Vec<BundleCatalogEntry>) -> (r: Result<(), CatalogError>)
        requires
            old(self).wf(),
        ensures
            final(self).wf(),
            match insert_bundles(old(self).block_map(), old(self).bundle_map(), bundle_views(bundles@)) {
                Err(e) => r == Err::<(), CatalogError>(e),
                Ok(m) => r is Ok && final(self).bundle_map() == m && final(self).block_map() == old(self).block_map()
                    && final(self).catalog_version() == old(self).catalog_version(),
            },
    {
        let ghost dv = bundle_views(bundles@);
        let mut j: usize = 0;
        while j < bundles.len()
            invariant
                self.wf(),
                j <= bundles@.len(),
                dv == bundle_views(bundles@),
                self.block_map() == old(self).block_map(),
                self.catalog_version() == old(self).catalog_version(),
                insert_bundles(old(self).block_map(), old(self).bundle_map(), dv.take(j as int)) == Ok::<Map<u64, BundleView>, CatalogError>(self.bundle_map()),
            decreases bundles@.len() - j,
        {
            proof {
                assert(dv.take(j + 1).drop_last() =~= dv.take(j as int));
                assert(dv.take(j + 1).last() == bundles@[j as int]@);
            }
            let entry = copy_bundle_entry(&bundles[j]);
            match self.insert_bundle_entry(entry) {
                Err(e) => {
                    proof {
                        lemma_insert_bundles_err_extends(old(self).block_map(), old(self).bundle_map(), dv, j as int + 1);
                    }
                    return Err(e);
                },
                Ok(_) => {},
            }
            j = j + 1;
        }
        assert(dv.take(j as int) =~= dv);
        Ok(())
    }
}

// ---------------------------------------------------------------------------
// Building sync payloads and repair responses
// ---------------------------------------------------------------------------

/// The first id in `ids` with no block, if any.
pub open spec fn first_missing_block(bm: Map<u64, BlockView>, ids: Seq<BlockId>) -> Option<BlockId>
    decreases ids.len(),
{
    if ids.len() == 0 {
        None
    } else {
        match first_missing_block(bm, ids.drop_last()) {
            Some(x) => Some(x),
            None => if bm.contains_key(ids.last().0) {
                None
            } else {
                Some(ids.last())
            },
        }
    }
}

pub open spec fn member_block_ids(s: Seq<BundleMember>) -> Seq<BlockId> {
    s.map_values(|m: BundleMember| m.block_id)
}

/// The first failed lookup while walking the bundles and their members.
pub open spec fn bundles_lookup_error(bm: Map<u64, BlockView>, bdm: Map<u64, BundleView>, ids: Seq<BundleId>) -> Option<CatalogError>
    decreases ids.len(),
{
    if ids.len() == 0 {
        None
    } else {
        match bundles_lookup_error(bm, bdm, ids.drop_last()) {
            Some(e) => Some(e),
            None => if !bdm.contains_key(ids.last().0) {
                Some(CatalogError::MissingBundle(ids.last()))
            } else {
                match first_missing_block(bm, member_block_ids(bdm[ids.last().0].members)) {
                    Some(b) => Some(CatalogError::MissingBlock(b)),
                    None => None,
                }
            },
        }
    }
}

/// Why a sync of these ids cannot be built: the requested blocks are looked
/// up first, then each bundle and its members.
pub open spec fn sync_lookup_error(bm: Map<u64, BlockView>, bdm: Map<u64, BundleView>, block_ids: Seq<BlockId>, bundle_ids: Seq<BundleId>) -> Option<CatalogError> {
    match first_missing_block(bm, block_ids) {
        Some(b) => Some(CatalogError::MissingBlock(b)),
        None => bundles_lookup_error(bm, bdm, bundle_ids),
    }
}

/// The member block ids of the bundles, in order.
pub open spec fn bundles_member_ids(bdm: Map<u64, BundleView>, ids: Seq<BundleId>) -> Seq<BlockId>
    decreases ids.len(),
{
    if ids.len() == 0 {
        Seq::empty()
    } else {
        bundles_member_ids(bdm, ids.drop_last()) + member_block_ids(bdm[ids.last().0].members)
    }
}

/// Whether block id `k` occurs in `ids`.
pub open spec fn names_block(ids: Seq<BlockId>, k: u64) -> bool {
    exists|i: int| 0 <= i < ids.len() && (#[trigger] ids[i]).0 == k
}

/// A sync payload carries, under the given version, every requested block
/// and every member block of a requested bundle once, in increasing id
/// order, and the requested bundles in request order.
pub open spec fn sync_payload_carries(
    bm: Map<u64, BlockView>,
    bdm: Map<u64, BundleView>,
    catalog_version: BlockCatalogVersion,
    block_ids: Seq<BlockId>,
    bundle_ids: Seq<BundleId>,
    p: CatalogSyncPayload,
) -> bool {
    let wanted = block_ids + bundles_member_ids(bdm, bundle_ids);
    let blocks = block_views(p.blocks@);
    &&& p.payload_version == CATALOG_SYNC_PAYLOAD_VERSION
    &&& p.catalog_version == catalog_version
    &&& forall|i: int, j: int| 0 <= i < j < blocks.len() ==> (#[trigger] blocks[i]).block_id.0 < (#[trigger] blocks[j]).block_id.0
    &&& forall|i: int| 0 <= i < blocks.len() ==> names_block(wanted, (#[trigger] blocks[i]).block_id.0)
        && bm.contains_key(blocks[i].block_id.0) && blocks[i] == bm[blocks[i].block_id.0]
    &&& forall|k: u64| names_block(wanted, k) ==> exists|i: int| 0 <= i < blocks.len() && (#[trigger] blocks[i]).block_id.0 == k
    &&& bundle_views(p.bundles@) == bundle_ids.map_values(|b: BundleId| bdm[b.0])
}

proof fn lemma_first_missing_extends(bm: Map<u64, BlockView>, s: Seq<BlockId>, n: int)
    requires
        0 <= n <= s.len(),
        first_missing_block(bm, s.take(n)) is Some,
    ensures
        first_missing_block(bm, s) == first_missing_block(bm, s.take(n)),
    decreases s.len() - n,
{
    if n < s.len() {
        assert(s.take(n + 1).drop_last() =~= s.take(n));
        lemma_first_missing_extends(bm, s, n + 1);
    } else {
        assert(s.take(n) =~= s);
    }
}

proof fn lemma_bundles_lookup_extends(bm: Map<u64, BlockView>, bdm: Map<u64, BundleView>, s: Seq<BundleId>, n: int)
    requires
        0 <= n <= s.len(),
        bundles_lookup_error(bm, bdm, s.take(n)) is Some,
    ensures
        bundles_lookup_error(bm, bdm, s) == bundles_lookup_error(bm, bdm, s.take(n)),
    decreases s.len() - n,
{
    if n < s.len() {
        assert(s.take(n + 1).drop_last() =~= s.take(n));
        lemma_bundles_lookup_extends(bm, bdm, s, n + 1);
    } else {
        assert(s.take(n) =~= s);
    }
}

/// The collected blocks: filed under their ids, copies of the catalog's,
/// exactly the ids named so far.
pub open spec fn collected_ok(c: Map<u64, BlockCatalogEntry>, bm: Map<u64, BlockView>, named: Seq<BlockId>) -> bool {
    &&& forall|k: u64| #[trigger] c.contains_key(k) <==> names_block(named, k)
    &&& forall|k: u64| #[trigger] c.contains_key(k) ==> c[k].block_id.0 == k && bm.contains_key(k) && c[k]@ == bm[k]
}

impl SharedBlockCatalog {
    /// Adds a copy of block `id` to `collected`, or reports it missing.
    fn collect_block(&self, collected: &mut U64Map<BlockCatalogEntry>, id: BlockId, named: Ghost<Seq<BlockId>>) -> (r: bool)
        requires
            self.wf(),
            old(collected).wf(),
            collected_ok(old(collected).map(), self.block_map(), named@),
        ensures
            final(collected).wf(),
            r == self.block_map().contains_key(id.0),
            r ==> collected_ok(final(collected).map(), self.block_map(), named@.push(id)),
            !r ==> *final(collected) == *old(collected),
    {
        match self.blocks.get(id.0) {
            Some(b) => {
                let c = copy_block_entry(b);
                proof {
                    let j = choose|j: int| 0 <= j < self.blocks@.len() && (#[trigger] self.blocks@[j]).0 == id.0;
                    crate::keyed::lemma_entries_map_at(self.blocks@, j);
                }
                collected.insert(id.0, c);
                proof {
                    let np = named@.push(id);
                    assert forall|k: u64| #[trigger] collected.map().contains_key(k) <==> names_block(np, k) by {
                        if names_block(named@, k) {
                            let i = choose|i: int| 0 <= i < named@.len() && (#[trigger] named@[i]).0 == k;
                            assert(np[i] == named@[i]);
                        }
                        if k == id.0 {
                            assert(np[named@.len() as int] == id);
                        }
                        if names_block(np, k) && k != id.0 {
                            let i = choose|i: int| 0 <= i < np.len() && (#[trigger] np[i]).0 == k;
                            assert(named@[i] == np[i]);
                        }
                    }
                }
                true
            },
            None => false,
        }
    }

    /// The sync payload that carries the requested blocks and bundles, with
    /// every block a requested bundle needs.
    pub fn sync_payload(&self, catalog_version: BlockCatalogVersion, block_ids: &[BlockId], bundle_ids: &[BundleId]) -> (r: Result<CatalogSyncPayload, CatalogError>)
        requires
            self.wf(),
        ensures
            match sync_lookup_error(self.block_map(), self.bundle_map(), block_ids@, bundle_ids@) {
                Some(e) => r == Err::<CatalogSyncPayload, CatalogError>(e),
                None => r matches Ok(p) && sync_payload_carries(self.block_map(), self.bundle_map(), catalog_version, block_ids@, bundle_ids@, p),
            },
    {
        let mut collected: U64Map<BlockCatalogEntry> = U64Map::new();
        let ghost mut named: Seq<BlockId> = Seq::empty();
        let ghost bm = self.block_map();
        let ghost bdm = self.bundle_map();
        let mut i: usize = 0;
        proof {
            assert(collected_ok(collected.map(), bm, named));
        }
        while i < block_ids.len()
            invariant
                self.wf(),
                bm == self.block_map(),
                i <= block_ids@.len(),
                collected.wf(),
                named == block_ids@.take(i as int),
                first_missing_block(bm, named) is None,
                collected_ok(collected.map(), bm, named),
            decreases block_ids@.len() - i,
        {
            proof {
                assert(block_ids@.take(i + 1).drop_last() =~= block_ids@.take(i as int));
            }
            let id = block_ids[i];
            if !self.collect_block(&mut collected, id, Ghost(named)) {
                proof {
                    lemma_first_missing_extends(bm, block_ids@, i as int + 1);
                }
                return Err(CatalogError::MissingBlock(id));
            }
            proof {
                named = named.push(id);
                assert(named =~= block_ids@.take(i + 1));
            }
            i = i + 1;
        }
        assert(block_ids@.take(i as int) =~= block_ids@);
        let mut bundles: Vec<BundleCatalogEntry> = Vec::new();
        let mut j: usize = 0;
        while j < bundle_ids.len()
            invariant
                self.wf(),
                bm == self.block_map(),
                bdm == self.bundle_map(),
                j <= bundle_ids@.len(),
                collected.wf(),
                first_missing_block(bm, block_ids@) is None,
                bundles_lookup_error(bm, bdm, bundle_ids@.take(j as int)) is None,
                named == block_ids@ + bundles_member_ids(bdm, bundle_ids@.take(j as int)),
                collected_ok(collected.map(), bm, named),
                bundle_views(bundles@) == bundle_ids@.take(j as int).map_values(|b: BundleId| bdm[b.0]),
            decreases bundle_ids@.len() - j,
        {
            proof {
                assert(bundle_ids@.take(j + 1).drop_last() =~= bundle_ids@.take(j as int));
            }
            let bid = bundle_ids[j];
            let bundle = match self.bundles.get(bid.0) {
                Some(b) => b,
                None => {
                    proof {
                        lemma_bundles_lookup_extends(bm, bdm, bundle_ids@, j as int + 1);
                    }
                    return Err(CatalogError::MissingBundle(bid));
                },
            };
            let ghost mids = member_block_ids(bundle.members@);
            let ghost before = named;
            proof {
                assert(bundle@ == bdm[bid.0]);
            }
            let mut m: usize = 0;
            while m < bundle.members.len()
                invariant
                    self.wf(),
                    bm == self.block_map(),
                    bdm == self.bundle_map(),
                    j < bundle_ids@.len(),
                    bid == bundle_ids@[j as int],
                    bdm.contains_key(bid.0),
                    bundle@ == bdm[bid.0],
                    bundle_ids@.take(j + 1).drop_last() == bundle_ids@.take(j as int),
                    bundles_lookup_error(bm, bdm, bundle_ids@.take(j as int)) is None,
                    first_missing_block(bm, block_ids@) is None,
                    m <= bundle.members@.len(),
                    mids == member_block_ids(bundle.members@),
                    collected.wf(),
                    first_missing_block(bm, mids.take(m as int)) is None,
                    named == before + mids.take(m as int),
                    collected_ok(collected.map(), bm, named),
                decreases bundle.members@.len() - m,
            {
                proof {
                    assert(mids.take(m + 1).drop_last() =~= mids.take(m as int));
                }
                let mb = bundle.members[m].block_id;
                if !self.collect_block(&mut collected, mb, Ghost(named)) {
                    proof {
                        assert(first_missing_block(bm, mids.take(m + 1)) == Some(mb));
                        lemma_first_missing_extends(bm, mids, m as int + 1);
                        assert(bundles_lookup_error(bm, bdm, bundle_ids@.take(j + 1)) == Some(CatalogError::MissingBlock(mb)));
                        lemma_bundles_lookup_extends(bm, bdm, bundle_ids@, j as int + 1);
                    }
                    return Err(CatalogError::MissingBlock(mb));
                }
                proof {
                    named = named.push(mb);
                    assert(named =~= before + mids.take(m + 1));
                }
                m = m + 1;
            }
            proof {
                assert(mids.take(m as int) =~= mids);
                assert(bundle@ == bdm[bid.0]);
                assert(named =~= block_ids@ + bundles_member_ids(bdm, bundle_ids@.take(j + 1)));
            }
            let copied = copy_bundle_entry(bundle);
            let ghost prev = bundles@;
            bundles.push(copied);
            proof {
                assert(bundle_ids@.take(j + 1) =~= bundle_ids@.take(j as int).push(bid));
                assert(bundle_views(bundles@) =~= bundle_views(prev).push(bdm[bid.0]));
            }
            j = j + 1;
            assert(bundle_views(bundles@) =~= bundle_ids@.take(j as int).map_values(|b: BundleId| bdm[b.0]));
        }
        assert(bundle_ids@.take(j as int) =~= bundle_ids@);
        let ghost cs = collected@;
        let ghost cm = collected.map();
        let blocks = collected.into_values();
        proof {
            let bv = block_views(blocks@);
            assert forall|a: int| 0 <= a < bv.len() implies cm.contains_key(cs[a].0) && cs[a].1 == cm[cs[a].0] && bv[a] == cs[a].1@ by {
                crate::keyed::lemma_entries_map_at(cs, a);
            }
            assert forall|a: int, b: int| 0 <= a < b < bv.len() implies (#[trigger] bv[a]).block_id.0 < (#[trigger] bv[b]).block_id.0 by {
                crate::keyed::lemma_entries_map_at(cs, a);
                crate::keyed::lemma_entries_map_at(cs, b);
            }
            assert forall|k: u64| names_block(named, k) implies exists|a: int| 0 <= a < bv.len() && (#[trigger] bv[a]).block_id.0 == k by {
                assert(cm.contains_key(k));
                let a = choose|a: int| 0 <= a < cs.len() && (#[trigger] cs[a]).0 == k;
                crate::keyed::lemma_entries_map_at(cs, a);
                assert(bv[a].block_id.0 == k);
            }
        }
        Ok(CatalogSyncPayload::new(catalog_version, blocks, bundles))
    }

    /// The repair response to a request: its validation, then the sync of
    /// what it names.
    pub fn repair_response(&self, request: &RepairRequest, catalog_version: BlockCatalogVersion) -> (r: Result<RepairPayload, CatalogError>)
        requires
            self.wf(),
        ensures
            match repair_request_check(request.missing_blocks@, request.missing_bundles@, request.cause) {
                Err(e) => r == Err::<RepairPayload, CatalogError>(e),
                Ok(_) => match sync_lookup_error(self.block_map(), self.bundle_map(), request.missing_blocks@, request.missing_bundles@) {
                    Some(e) => r == Err::<RepairPayload, CatalogError>(e),
                    None => r matches Ok(RepairPayload::Response { payload_version, sync }) && payload_version == REPAIR_PAYLOAD_VERSION
                        && sync_payload_carries(self.block_map(), self.bundle_map(), catalog_version, request.missing_blocks@, request.missing_bundles@, sync),
                },
            },
    {
        request.validate()?;
        let sync = self.sync_payload(catalog_version, request.missing_blocks.as_slice(), request.missing_bundles.as_slice())?;
        Ok(RepairPayload::response(sync))
    }
}

// ---------------------------------------------------------------------------
// Common windows between a payload and catalog material
// ---------------------------------------------------------------------------

/// The length of the longest common prefix of two byte strings.
pub open spec fn common_prefix_len(a: Seq<u8>, b: Seq<u8>) -> nat
    decreases a.len(),
{
    if a.len() == 0 || b.len() == 0 || a[0] != b[0] {
        0
    } else {
        1 + common_prefix_len(a.drop_first(), b.drop_first())
    }
}

/// The best window after seeing one at `rs` of length `len`: a longer one
/// wins, and of equal ones the earlier start.
pub open spec fn window_best_update(best: Option<(nat, nat)>, rs: nat, len: nat) -> Option<(nat, nat)> {
    match best {
        Some((bs, bl)) => if len > bl || (len == bl && rs < bs) {
            Some((rs, len))
        } else {
            best
        },
        None => Some((rs, len)),
    }
}

pub open spec fn window_best_len(best: Option<(nat, nat)>) -> nat {
    match best {
        Some((_, l)) => l,
        None => 0,
    }
}

/// The scan over starts in `right` for one start `ls` in `left`. Starts with
/// fewer than `min_len` bytes left end the scan; starts with no more bytes
/// left than `cbl` (the best length when this scan began) are passed over.
pub open spec fn window_scan_right(
    left: Seq<u8>,
    right: Seq<u8>,
    min_len: nat,
    ls: nat,
    rs: nat,
    cbl: nat,
    best: Option<(nat, nat)>,
) -> Option<(nat, nat)>
    decreases right.len() - rs,
{
    if rs >= right.len() {
        best
    } else if right.len() - rs < min_len {
        best
    } else if right.len() - rs <= cbl {
        window_scan_right(left, right, min_len, ls, rs + 1, cbl, best)
    } else {
        let len = common_prefix_len(left.skip(ls as int), right.skip(rs as int));
        if len < min_len {
            window_scan_right(left, right, min_len, ls, rs + 1, cbl, best)
        } else {
            window_scan_right(left, right, min_len, ls, rs + 1, cbl, window_best_update(best, rs, len))
        }
    }
}

/// The scan over starts in `left`; it ends once the bytes left from a start
/// are fewer than `min_len` or no more than the best length found.
pub open spec fn window_scan_left(left: Seq<u8>, right: Seq<u8>, min_len: nat, ls: nat, best: Option<(nat, nat)>) -> Option<(nat, nat)>
    decreases left.len() - ls,
{
    if ls >= left.len() {
        best
    } else if left.len() - ls < min_len {
        best
    } else if left.len() - ls <= window_best_len(best) {
        best
    } else {
        window_scan_left(left, right, min_len, ls + 1, window_scan_right(left, right, min_len, ls, 0, window_best_len(best), best))
    }
}

/// The start in `right` and the length of the longest run of at least
/// `min_len` bytes that `left` and `right` share, found by the scan above.
pub open spec fn longest_common_window_spec(left: Seq<u8>, right: Seq<u8>, min_len: nat) -> Option<(nat, nat)> {
    if left.len() == 0 || right.len() == 0 || min_len == 0 {
        None
    } else {
        window_scan_left(left, right, min_len, 0, None)
    }
}

pub open spec fn window_nat(w: Option<(usize, usize)>) -> Option<(nat, nat)> {
    match w {
        Some((s, l)) => Some((s as nat, l as nat)),
        None => None,
    }
}

fn common_prefix_scan(a: &[u8], b: &[u8], ai: usize, bi: usize) -> (n: usize)
    requires
        ai <= a@.len(),
        bi <= b@.len(),
    ensures
        n == common_prefix_len(a@.skip(ai as int), b@.skip(bi as int)),
        n <= a@.len() - ai,
        n <= b@.len() - bi,
{
    let mut n: usize = 0;
    while n < a.len() - ai && n < b.len() - bi && a[ai + n] == b[bi + n]
        invariant
            ai + n <= a@.len(),
            bi + n <= b@.len(),
            common_prefix_len(a@.skip(ai as int), b@.skip(bi as int)) == n + common_prefix_len(a@.skip(ai + n), b@.skip(bi + n)),
        decreases a@.len() - ai - n,
    {
        proof {
            let sa = a@.skip(ai + n);
            let sb = b@.skip(bi + n);
            assert(sa[0] == a@[ai + n]);
            assert(sb[0] == b@[bi + n]);
            assert(sa.drop_first() =~= a@.skip(ai + n + 1));
            assert(sb.drop_first() =~= b@.skip(bi + n + 1));
        }
        n = n + 1;
    }
    proof {
        let sa = a@.skip(ai + n);
        let sb = b@.skip(bi + n);
        if sa.len() > 0 && sb.len() > 0 {
            assert(sa[0] == a@[ai + n]);
            assert(sb[0] == b@[bi + n]);
        }
    }
    n
}

fn longest_common_window(left: &[u8], right: &[u8], min_len: usize) -> (r: Option<(usize, usize)>)
    ensures
        window_nat(r) == longest_common_window_spec(left@, right@, min_len as nat),
        r matches Some((s, l)) ==> s < right@.len() && l <= right@.len() - s,
{
    if left.len() == 0 || right.len() == 0 || min_len == 0 {
        return None;
    }
    let ghost target = longest_common_window_spec(left@, right@, min_len as nat);
    let mut best: Option<(usize, usize)> = None;
    let mut ls: usize = 0;
    while ls < left.len()
        invariant
            ls <= left@.len(),
            min_len > 0,
            target == longest_common_window_spec(left@, right@, min_len as nat),
            left@.len() > 0 && right@.len() > 0,
            window_scan_left(left@, right@, min_len as nat, ls as nat, window_nat(best)) == target,
            best matches Some((s, l)) ==> s < right@.len() && l <= right@.len() - s,
        decreases left@.len() - ls,
    {
        let left_remaining = left.len() - ls;
        if left_remaining < min_len {
            return best;
        }
        let current_best_len: usize = match best {
            Some((_, l)) => l,
            None => 0,
        };
        if left_remaining <= current_best_len {
            return best;
        }
        let ghost before = window_nat(best);
        let mut rs: usize = 0;
        while rs < right.len() && right.len() - rs >= min_len
            invariant
                ls < left@.len(),
                rs <= right@.len(),
                min_len > 0,
                current_best_len == window_best_len(before),
                window_scan_right(left@, right@, min_len as nat, ls as nat, rs as nat, current_best_len as nat, window_nat(best))
                    == window_scan_right(left@, right@, min_len as nat, ls as nat, 0, current_best_len as nat, before),
                best matches Some((s, l)) ==> s < right@.len() && l <= right@.len() - s,
            decreases right@.len() - rs,
        {
            let right_remaining = right.len() - rs;
            if right_remaining <= current_best_len {
                rs = rs + 1;
                continue;
            }
            let len = common_prefix_scan(left, right, ls, rs);
            if len < min_len {
                rs = rs + 1;
                continue;
            }
            match best {
                Some((best_start, best_len)) => {
                    if len > best_len || (len == best_len && rs < best_start) {
                        best = Some((rs, len));
                    }
                },
                None => {
                    best = Some((rs, len));
                },
            }
            rs = rs + 1;
        }
        ls = ls + 1;
    }
    best
}

// ---------------------------------------------------------------------------
// Prefix and window candidates
// ---------------------------------------------------------------------------

#[derive(Debug, Clone, Copy, PartialEq, Eq, Structural)]
pub enum CatalogPrefixCandidate {
    Block { block_id: BlockId, byte_len: u32 },
    Bundle { bundle_id: BundleId, byte_len: u32 },
}

impl CatalogPrefixCandidate {
    pub open spec fn len_spec(self) -> u32 {
        match self {
            CatalogPrefixCandidate::Block { byte_len, .. } => byte_len,
            CatalogPrefixCandidate::Bundle { byte_len, .. } => byte_len,
        }
    }

    pub fn byte_len(self) -> (n: u32)
        ensures
            n == self.len_spec(),
    {
        match self {
            CatalogPrefixCandidate::Block { byte_len, .. } => byte_len,
            CatalogPrefixCandidate::Bundle { byte_len, .. } => byte_len,
        }
    }
}

#[derive(Debug, Clone, Copy, PartialEq, Eq, Structural)]
pub enum CatalogWindowCandidate {
    Block { block_id: BlockId, base_start: u32, byte_len: u32 },
    Bundle { bundle_id: BundleId, base_start: u32, byte_len: u32 },
}

impl CatalogWindowCandidate {
    pub open spec fn start_spec(self) -> u32 {
        match self {
            CatalogWindowCandidate::Block { base_start, .. } => base_start,
            CatalogWindowCandidate::Bundle { base_start, .. } => base_start,
        }
    }

    pub open spec fn len_spec(self) -> u32 {
        match self {
            CatalogWindowCandidate::Block { byte_len, .. } => byte_len,
            CatalogWindowCandidate::Bundle { byte_len, .. } => byte_len,
        }
    }

    pub fn base_start(self) -> (n: u32)
        ensures
            n == self.start_spec(),
    {
        match self {
            CatalogWindowCandidate::Block { base_start, .. } => base_start,
            CatalogWindowCandidate::Bundle { base_start, .. } => base_start,
        }
    }

    pub fn byte_len(self) -> (n: u32)
        ensures
            n == self.len_spec(),
    {
        match self {
            CatalogWindowCandidate::Block { byte_len, .. } => byte_len,
            CatalogWindowCandidate::Bundle { byte_len, .. } => byte_len,
        }
    }
}

/// Whether `material` is a prefix of `payload`.
pub open spec fn is_prefix_of(material: Seq<u8>, payload: Seq<u8>) -> bool {
    material.len() <= payload.len() && payload.take(material.len() as int) == material
}

/// The blocks, in id order, at least `min_len` long, that `payload` starts with.
pub open spec fn prefix_block_hits(blocks: Seq<BlockView>, payload: Seq<u8>, min_len: nat) -> Seq<CatalogPrefixCandidate>
    decreases blocks.len(),
{
    if blocks.len() == 0 {
        Seq::empty()
    } else {
        let rest = prefix_block_hits(blocks.drop_last(), payload, min_len);
        let b = blocks.last();
        if b.material.len() >= min_len && is_prefix_of(b.material, payload) {
            rest.push(CatalogPrefixCandidate::Block { block_id: b.block_id, byte_len: b.byte_len })
        } else {
            rest
        }
    }
}

/// The bundles, in id order, recorded at least `min_len` long, that
/// materialize and that `payload` starts with.
pub open spec fn prefix_bundle_hits(
    bm: Map<u64, BlockView>,
    bdm: Map<u64, BundleView>,
    bundles: Seq<BundleView>,
    payload: Seq<u8>,
    min_len: nat,
) -> Seq<CatalogPrefixCandidate>
    decreases bundles.len(),
{
    if bundles.len() == 0 {
        Seq::empty()
    } else {
        let rest = prefix_bundle_hits(bm, bdm, bundles.drop_last(), payload, min_len);
        let b = bundles.last();
        if b.byte_len >= min_len && (bundle_material(bm, bdm, b.bundle_id) matches Ok(m) && is_prefix_of(m, payload)) {
            rest.push(CatalogPrefixCandidate::Bundle { bundle_id: b.bundle_id, byte_len: b.byte_len })
        } else {
            rest
        }
    }
}

/// `a` ranks strictly before `b`: longer first, and a bundle before a block
/// of the same length.
pub open spec fn prefix_before(a: CatalogPrefixCandidate, b: CatalogPrefixCandidate) -> bool {
    a.len_spec() > b.len_spec() || (a.len_spec() == b.len_spec() && a is Bundle && b is Block)
}

pub open spec fn prefix_insert_pos(s: Seq<CatalogPrefixCandidate>, x: CatalogPrefixCandidate) -> nat
    decreases s.len(),
{
    if s.len() == 0 {
        0
    } else if prefix_before(x, s[0]) {
        0
    } else {
        1 + prefix_insert_pos(s.drop_first(), x)
    }
}

/// The candidates ranked, equal ones in their original order.
pub open spec fn prefix_sorted(s: Seq<CatalogPrefixCandidate>) -> Seq<CatalogPrefixCandidate>
    decreases s.len(),
{
    if s.len() == 0 {
        s
    } else {
        let t = prefix_sorted(s.drop_last());
        t.insert(prefix_insert_pos(t, s.last()) as int, s.last())
    }
}

proof fn lemma_prefix_insert_pos_bound(s: Seq<CatalogPrefixCandidate>, x: CatalogPrefixCandidate)
    ensures
        prefix_insert_pos(s, x) <= s.len(),
    decreases s.len(),
{
    if s.len() > 0 {
        lemma_prefix_insert_pos_bound(s.drop_first(), x);
    }
}

proof fn lemma_prefix_sorted_len(s: Seq<CatalogPrefixCandidate>)
    ensures
        prefix_sorted(s).len() == s.len(),
    decreases s.len(),
{
    if s.len() > 0 {
        lemma_prefix_sorted_len(s.drop_last());
        lemma_prefix_insert_pos_bound(prefix_sorted(s.drop_last()), s.last());
    }
}

fn prefix_find_pos(v: &Vec<CatalogPrefixCandidate>, x: CatalogPrefixCandidate) -> (p: usize)
    ensures
        p == prefix_insert_pos(v@, x),
{
    let mut i: usize = 0;
    assert(v@.subrange(0, v@.len() as int) =~= v@);
    while i < v.len()
        invariant
            i <= v@.len(),
            prefix_insert_pos(v@, x) == i + prefix_insert_pos(v@.subrange(i as int, v@.len() as int), x),
        decreases v@.len() - i,
    {
        proof {
            let rest = v@.subrange(i as int, v@.len() as int);
            assert(rest[0] == v@[i as int]);
            assert(rest.drop_first() =~= v@.subrange(i + 1, v@.len() as int));
        }
        let e = v[i];
        let before = x.byte_len() > e.byte_len() || (x.byte_len() == e.byte_len() && match (x, e) {
            (CatalogPrefixCandidate::Bundle { .. }, CatalogPrefixCandidate::Block { .. }) => true,
            _ => false,
        });
        if before {
            return i;
        }
        i = i + 1;
    }
    proof {
        assert(v@.subrange(i as int, v@.len() as int).len() == 0);
    }
    i
}

/// The first `limit` of `s`.
pub open spec fn first_n<T>(s: Seq<T>, limit: nat) -> Seq<T> {
    if s.len() <= limit {
        s
    } else {
        s.take(limit as int)
    }
}

fn is_prefix_bytes(material: &[u8], payload: &[u8]) -> (r: bool)
    ensures
        r == is_prefix_of(material@, payload@),
{
    if material.len() > payload.len() {
        return false;
    }
    let head = copy_range(payload, 0, material.len());
    bytes_equal(head.as_slice(), material)
}

fn prefix_insert(sorted: &mut Vec<CatalogPrefixCandidate>, x: CatalogPrefixCandidate, all: Ghost<Seq<CatalogPrefixCandidate>>)
    requires
        old(sorted)@ == prefix_sorted(all@),
    ensures
        final(sorted)@ == prefix_sorted(all@.push(x)),
{
    proof {
        lemma_prefix_sorted_len(all@);
        lemma_prefix_insert_pos_bound(old(sorted)@, x);
        assert(all@.push(x).drop_last() =~= all@);
    }
    let p = prefix_find_pos(sorted, x);
    sorted.insert(p, x);
}

impl SharedBlockCatalog {
    /// The blocks and bundles that `prefix` starts with, at least `min_len`
    /// long: longest first, a bundle before a block of equal length, ties in
    /// id order (blocks, then bundles); at most `limit` of them.
    pub fn prefix_candidates(&self, prefix: &[u8], min_len: usize, limit: usize) -> (r: Vec<CatalogPrefixCandidate>)
        requires
            self.wf(),
        ensures
            r@ == first_n(
                prefix_sorted(prefix_block_hits(self.block_list(), prefix@, min_len as nat) + prefix_bundle_hits(
                    self.block_map(),
                    self.bundle_map(),
                    self.bundle_list(),
                    prefix@,
                    min_len as nat,
                )),
                limit as nat,
            ),
    {
        let ghost bl = self.block_list();
        let ghost dl = self.bundle_list();
        let mut sorted: Vec<CatalogPrefixCandidate> = Vec::new();
        let ghost mut all: Seq<CatalogPrefixCandidate> = Seq::empty();
        let mut i: usize = 0;
        while i < self.blocks.len()
            invariant
                self.wf(),
                bl == self.block_list(),
                i <= bl.len(),
                all == prefix_block_hits(bl.take(i as int), prefix@, min_len as nat),
                sorted@ == prefix_sorted(all),
            decreases bl.len() - i,
        {
            proof {
                assert(bl.take(i + 1).drop_last() =~= bl.take(i as int));
            }
            let b = self.blocks.value_at(i);
            assert(bl.take(i + 1).last() == b@);
            if b.material.len() >= min_len && is_prefix_bytes(b.material.as_slice(), prefix) {
                let c = CatalogPrefixCandidate::Block { block_id: b.block_id, byte_len: b.byte_len };
                prefix_insert(&mut sorted, c, Ghost(all));
                proof {
                    all = all.push(c);
                }
            }
            i = i + 1;
        }
        assert(bl.take(i as int) =~= bl);
        let ghost block_hits = all;
        let mut j: usize = 0;
        while j < self.bundles.len()
            invariant
                self.wf(),
                dl == self.bundle_list(),
                j <= dl.len(),
                all == block_hits + prefix_bundle_hits(self.block_map(), self.bundle_map(), dl.take(j as int), prefix@, min_len as nat),
                sorted@ == prefix_sorted(all),
            decreases dl.len() - j,
        {
            proof {
                assert(dl.take(j + 1).drop_last() =~= dl.take(j as int));
            }
            let b = self.bundles.value_at(j);
            assert(dl.take(j + 1).last() == b@);
            if b.byte_len as usize >= min_len {
                match self.materialize_bundle(b.bundle_id) {
                    Ok(material) => {
                        if is_prefix_bytes(material.as_slice(), prefix) {
                            let c = CatalogPrefixCandidate::Bundle { bundle_id: b.bundle_id, byte_len: b.byte_len };
                            prefix_insert(&mut sorted, c, Ghost(all));
                            proof {
                                all = all.push(c);
                            }
                        }
                    },
                    Err(_) => {},
                }
            }
            proof {
                assert(all =~= block_hits + prefix_bundle_hits(self.block_map(), self.bundle_map(), dl.take(j + 1), prefix@, min_len as nat));
            }
            j = j + 1;
        }
        assert(dl.take(j as int) =~= dl);
        sorted.truncate(limit);
        sorted
    }
}

/// The blocks, in id order, at least `min_len` long, that share a window of
/// at least `min_len` bytes with `payload`, each with its longest window.
pub open spec fn window_block_hits(blocks: Seq<BlockView>, payload: Seq<u8>, min_len: nat) -> Seq<CatalogWindowCandidate>
    decreases blocks.len(),
{
    if blocks.len() == 0 {
        Seq::empty()
    } else {
        let rest = window_block_hits(blocks.drop_last(), payload, min_len);
        let b = blocks.last();
        if b.material.len() < min_len {
            rest
        } else {
            match longest_common_window_spec(payload, b.material, min_len) {
                Some((st, len)) => rest.push(CatalogWindowCandidate::Block { block_id: b.block_id, base_start: st as u32, byte_len: len as u32 }),
                None => rest,
            }
        }
    }
}

/// The bundles, in id order, recorded at least `min_len` long, that
/// materialize and share such a window with `payload`.
pub open spec fn window_bundle_hits(
    bm: Map<u64, BlockView>,
    bdm: Map<u64, BundleView>,
    bundles: Seq<BundleView>,
    payload: Seq<u8>,
    min_len: nat,
) -> Seq<CatalogWindowCandidate>
    decreases bundles.len(),
{
    if bundles.len() == 0 {
        Seq::empty()
    } else {
        let rest = window_bundle_hits(bm, bdm, bundles.drop_last(), payload, min_len);
        let b = bundles.last();
        if b.byte_len < min_len {
            rest
        } else {
            match bundle_material(bm, bdm, b.bundle_id) {
                Err(_) => rest,
                Ok(m) => match longest_common_window_spec(payload, m, min_len) {
                    Some((st, len)) => rest.push(CatalogWindowCandidate::Bundle { bundle_id: b.bundle_id, base_start: st as u32, byte_len: len as u32 }),
                    None => rest,
                },
            }
        }
    }
}

/// `a` ranks strictly before `b`: longer first, then the earlier start, then
/// a bundle before a block.
pub open spec fn window_before(a: CatalogWindowCandidate, b: CatalogWindowCandidate) -> bool {
    ||| a.len_spec() > b.len_spec()
    ||| a.len_spec() == b.len_spec() && a.start_spec() < b.start_spec()
    ||| a.len_spec() == b.len_spec() && a.start_spec() == b.start_spec() && a is Bundle && b is Block
}

pub open spec fn window_insert_pos(s: Seq<CatalogWindowCandidate>, x: CatalogWindowCandidate) -> nat
    decreases s.len(),
{
    if s.len() == 0 {
        0
    } else if window_before(x, s[0]) {
        0
    } else {
        1 + window_insert_pos(s.drop_first(), x)
    }
}

/// The candidates ranked, equal ones in their original order.
pub open spec fn window_sorted(s: Seq<CatalogWindowCandidate>) -> Seq<CatalogWindowCandidate>
    decreases s.len(),
{
    if s.len() == 0 {
        s
    } else {
        let t = window_sorted(s.drop_last());
        t.insert(window_insert_pos(t, s.last()) as int, s.last())
    }
}

proof fn lemma_window_insert_pos_bound(s: Seq<CatalogWindowCandidate>, x: CatalogWindowCandidate)
    ensures
        window_insert_pos(s, x) <= s.len(),
    decreases s.len(),
{
    if s.len() > 0 {
        lemma_window_insert_pos_bound(s.drop_first(), x);
    }
}

proof fn lemma_window_sorted_len(s: Seq<CatalogWindowCandidate>)
    ensures
        window_sorted(s).len() == s.len(),
    decreases s.len(),
{
    if s.len() > 0 {
        lemma_window_sorted_len(s.drop_last());
        lemma_window_insert_pos_bound(window_sorted(s.drop_last()), s.last());
    }
}

fn window_find_pos(v: &Vec<CatalogWindowCandidate>, x: CatalogWindowCandidate) -> (p: usize)
    ensures
        p == window_insert_pos(v@, x),
{
    let mut i: usize = 0;
    assert(v@.subrange(0, v@.len() as int) =~= v@);
    while i < v.len()
        invariant
            i <= v@.len(),
            window_insert_pos(v@, x) == i + window_insert_pos(v@.subrange(i as int, v@.len() as int), x),
        decreases v@.len() - i,
    {
        proof {
            let rest = v@.subrange(i as int, v@.len() as int);
            assert(rest[0] == v@[i as int]);
            assert(rest.drop_first() =~= v@.subrange(i + 1, v@.len() as int));
        }
        let e = v[i];
        let kind_first = match (x, e) {
            (CatalogWindowCandidate::Bundle { .. }, CatalogWindowCandidate::Block { .. }) => true,
            _ => false,
        };
        let before = x.byte_len() > e.byte_len() || (x.byte_len() == e.byte_len() && x.base_start() < e.base_start()) || (
        x.byte_len() == e.byte_len() && x.base_start() == e.base_start() && kind_first);
        if before {
            return i;
        }
        i = i + 1;
    }
    proof {
        assert(v@.subrange(i as int, v@.len() as int).len() == 0);
    }
    i
}

fn window_insert(sorted: &mut Vec<CatalogWindowCandidate>, x: CatalogWindowCandidate, all: Ghost<Seq<CatalogWindowCandidate>>)
    requires
        old(sorted)@ == window_sorted(all@),
    ensures
        final(sorted)@ == window_sorted(all@.push(x)),
{
    proof {
        lemma_window_sorted_len(all@);
        lemma_window_insert_pos_bound(old(sorted)@, x);
        assert(all@.push(x).drop_last() =~= all@);
    }
    let p = window_find_pos(sorted, x);
    sorted.insert(p, x);
}

impl SharedBlockCatalog {
    /// The blocks and bundles that share a window of at least `min_len`
    /// bytes with `payload`, each with its longest window: longest first,
    /// then the earlier start, then a bundle before a block, ties in id
    /// order (blocks, then bundles); at most `limit` of them.
    pub fn window_candidates(&self, payload: &[u8], min_len: usize, limit: usize) -> (r: Vec<CatalogWindowCandidate>)
        requires
            self.wf(),
        ensures
            r@ == first_n(
                window_sorted(window_block_hits(self.block_list(), payload@, min_len as nat) + window_bundle_hits(
                    self.block_map(),
                    self.bundle_map(),
                    self.bundle_list(),
                    payload@,
                    min_len as nat,
                )),
                limit as nat,
            ),
    {
        let ghost bl = self.block_list();
        let ghost dl = self.bundle_list();
        let mut sorted: Vec<CatalogWindowCandidate> = Vec::new();
        let ghost mut all: Seq<CatalogWindowCandidate> = Seq::empty();
        let mut i: usize = 0;
        while i < self.blocks.len()
            invariant
                self.wf(),
                bl == self.block_list(),
                i <= bl.len(),
                all == window_block_hits(bl.take(i as int), payload@, min_len as nat),
                sorted@ == window_sorted(all),
            decreases bl.len() - i,
        {
            proof {
                assert(bl.take(i + 1).drop_last() =~= bl.take(i as int));
            }
            let b = self.blocks.value_at(i);
            assert(bl.take(i + 1).last() == b@);
            if b.material.len() >= min_len {
                match longest_common_window(payload, b.material.as_slice(), min_len) {
                    Some((base_start, len)) => {
                        let c = CatalogWindowCandidate::Block { block_id: b.block_id, base_start: base_start as u32, byte_len: len as u32 };
                        window_insert(&mut sorted, c, Ghost(all));
                        proof {
                            all = all.push(c);
                        }
                    },
                    None => {},
                }
            }
            i = i + 1;
        }
        assert(bl.take(i as int) =~= bl);
        let ghost block_hits = all;
        let mut j: usize = 0;
        while j < self.bundles.len()
            invariant
                self.wf(),
                dl == self.bundle_list(),
                j <= dl.len(),
                all == block_hits + window_bundle_hits(self.block_map(), self.bundle_map(), dl.take(j as int), payload@, min_len as nat),
                sorted@ == window_sorted(all),
            decreases dl.len() - j,
        {
            proof {
                assert(dl.take(j + 1).drop_last() =~= dl.take(j as int));
            }
            let b = self.bundles.value_at(j);
            assert(dl.take(j + 1).last() == b@);
            if b.byte_len as usize >= min_len {
                match self.materialize_bundle(b.bundle_id) {
                    Ok(material) => {
                        match longest_common_window(payload, material.as_slice(), min_len) {
                            Some((base_start, len)) => {
                                let c = CatalogWindowCandidate::Bundle { bundle_id: b.bundle_id, base_start: base_start as u32, byte_len: len as u32 };
                                window_insert(&mut sorted, c, Ghost(all));
                                proof {
                                    all = all.push(c);
                                }
                            },
                            None => {},
                        }
                    },
                    Err(_) => {},
                }
            }
            proof {
                assert(all =~= block_hits + window_bundle_hits(self.block_map(), self.bundle_map(), dl.take(j + 1), payload@, min_len as nat));
            }
            j = j + 1;
        }
        assert(dl.take(j as int) =~= dl);
        sorted.truncate(limit);
        sorted
    }
}

// ---------------------------------------------------------------------------
// Laws of the catalog
// ---------------------------------------------------------------------------

impl SharedBlockCatalog {
    /// Every block the catalog holds is filed under its own id and passes
    /// validation.
    pub proof fn lemma_catalog_blocks_valid(&self)
        requires
            self.wf(),
        ensures
            forall|k: u64| #[trigger] self.block_map().contains_key(k) ==> self.block_map()[k].block_id.0 == k && block_check(self.block_map()[k]) is Ok,
    {
        assert forall|k: u64| #[trigger] self.block_map().contains_key(k) implies self.block_map()[k].block_id.0 == k && block_check(self.block_map()[k]) is Ok by {
            let i = choose|i: int| 0 <= i < self.blocks@.len() && (#[trigger] self.blocks@[i]).0 == k;
            crate::keyed::lemma_entries_map_at(self.blocks@, i);
        }
    }
}

/// Inserting the same block twice changes nothing the second time.
pub proof fn lemma_block_insert_idempotent(bm: Map<u64, BlockView>, e: BlockView)
    requires
        block_insert(bm, e) is Ok,
    ensures
        block_insert(block_insert(bm, e)->Ok_0, e) == block_insert(bm, e),
{
    let m = block_insert(bm, e)->Ok_0;
    assert(m.insert(e.block_id.0, e) =~= m);
}

/// A bundle that `define_bundle` files materializes to its members' ranges,
/// concatenated in order.
pub proof fn lemma_defined_bundle_materializes(bm: Map<u64, BlockView>, bdm: Map<u64, BundleView>, members: Seq<BundleMember>)
    requires
        bundle_entry_from(bm, members) is Ok,
        bundle_insert(bm, bdm, bundle_entry_from(bm, members)->Ok_0) is Ok,
    ensures
        bundle_material(
            bm,
            bundle_insert(bm, bdm, bundle_entry_from(bm, members)->Ok_0)->Ok_0,
            bundle_entry_from(bm, members)->Ok_0.bundle_id,
        ) == members_material(bm, members),
{
}

proof fn lemma_sorted_blocks_check(s: Seq<BlockView>)
    requires
        forall|i: int, j: int| 0 <= i < j < s.len() ==> (#[trigger] s[i]).block_id.0 < (#[trigger] s[j]).block_id.0,
        forall|i: int| 0 <= i < s.len() ==> block_check(#[trigger] s[i]) is Ok,
    ensures
        sync_blocks_check(s) is Ok,
        insert_blocks(Map::empty(), s) == Ok::<Map<u64, BlockView>, CatalogError>(
            Map::new(|k: u64| exists|i: int| 0 <= i < s.len() && (#[trigger] s[i]).block_id.0 == k,
                |k: u64| s[choose|i: int| 0 <= i < s.len() && (#[trigger] s[i]).block_id.0 == k]),
        ),
    decreases s.len(),
{
    if s.len() > 0 {
        let t = s.drop_last();
        lemma_sorted_blocks_check(t);
        let x = s.last();
        assert(!has_id(block_id_values(t), x.block_id.0)) by {
            if has_id(block_id_values(t), x.block_id.0) {
                let i = choose|i: int| 0 <= i < block_id_values(t).len() && block_id_values(t)[i] == x.block_id.0;
                assert(s[i].block_id.0 < s[s.len() - 1].block_id.0);
            }
        }
        assert(block_check(s[s.len() - 1]) is Ok);
        let mt = Map::new(|k: u64| exists|i: int| 0 <= i < t.len() && (#[trigger] t[i]).block_id.0 == k,
            |k: u64| t[choose|i: int| 0 <= i < t.len() && (#[trigger] t[i]).block_id.0 == k]);
        let ms = Map::new(|k: u64| exists|i: int| 0 <= i < s.len() && (#[trigger] s[i]).block_id.0 == k,
            |k: u64| s[choose|i: int| 0 <= i < s.len() && (#[trigger] s[i]).block_id.0 == k]);
        assert(!mt.contains_key(x.block_id.0)) by {
            if mt.contains_key(x.block_id.0) {
                let i = choose|i: int| 0 <= i < t.len() && (#[trigger] t[i]).block_id.0 == x.block_id.0;
                assert(s[i].block_id.0 < s[s.len() - 1].block_id.0);
            }
        }
        assert forall|k: u64| #[trigger] ms.contains_key(k) implies mt.insert(x.block_id.0, x).contains_key(k) && ms[k] == mt.insert(x.block_id.0, x)[k] by {
            let i = choose|i: int| 0 <= i < s.len() && (#[trigger] s[i]).block_id.0 == k;
            if i == s.len() - 1 {
                assert forall|j: int| 0 <= j < s.len() && (#[trigger] s[j]).block_id.0 == k implies j == i by {
                    if j < i {
                        assert(s[j].block_id.0 < s[i].block_id.0);
                    }
                }
            } else {
                assert(t[i] == s[i]);
                let j = choose|j: int| 0 <= j < t.len() && (#[trigger] t[j]).block_id.0 == k;
                assert(s[j] == t[j]);
                if j < i {
                    assert(s[j].block_id.0 < s[i].block_id.0);
                } else if i < j {
                    assert(s[i].block_id.0 < s[j].block_id.0);
                }
                assert forall|a: int| 0 <= a < s.len() && (#[trigger] s[a]).block_id.0 == k implies a == i by {
                    if a < i {
                        assert(s[a].block_id.0 < s[i].block_id.0);
                    } else if i < a {
                        assert(s[i].block_id.0 < s[a].block_id.0);
                    }
                }
            }
        }
        assert forall|k: u64| #[trigger] mt.insert(x.block_id.0, x).contains_key(k) implies ms.contains_key(k) by {
            if k == x.block_id.0 {
                assert(s[s.len() - 1].block_id.0 == k);
            } else {
                let i = choose|i: int| 0 <= i < t.len() && (#[trigger] t[i]).block_id.0 == k;
                assert(s[i] == t[i]);
            }
        }
        assert(ms =~= mt.insert(x.block_id.0, x));
    } else {
        assert(Map::new(|k: u64| exists|i: int| 0 <= i < s.len() && (#[trigger] s[i]).block_id.0 == k,
            |k: u64| s[choose|i: int| 0 <= i < s.len() && (#[trigger] s[i]).block_id.0 == k]) =~= Map::<u64, BlockView>::empty());
    }
}

/// Repair: the sync that a catalog builds for requested blocks, applied to
/// an empty catalog, restores each requested block exactly as the catalog
/// holds it (when the sync stays within the block limit).
pub proof fn lemma_repair_restores_blocks(c: SharedBlockCatalog, version: BlockCatalogVersion, block_ids: Seq<BlockId>, p: CatalogSyncPayload)
    requires
        c.wf(),
        sync_payload_carries(c.block_map(), c.bundle_map(), version, block_ids, Seq::empty(), p),
        p.blocks@.len() <= MAX_CATALOG_SYNC_BLOCKS,
    ensures
        sync_outcome(BlockCatalogVersion(0), Map::empty(), Map::empty(), p) matches Ok((v, bm, _)) && v == version
            && forall|i: int| 0 <= i < block_ids.len() ==> bm.contains_key((#[trigger] block_ids[i]).0)
                && bm[block_ids[i].0] == c.block_map()[block_ids[i].0],
{
    c.lemma_catalog_blocks_valid();
    let bv = block_views(p.blocks@);
    let bm = c.block_map();
    let wanted = block_ids + bundles_member_ids(c.bundle_map(), Seq::<BundleId>::empty());
    assert(wanted =~= block_ids);
    assert forall|i: int| 0 <= i < bv.len() implies block_check(#[trigger] bv[i]) is Ok by {
        assert(bm.contains_key(bv[i].block_id.0));
    }
    lemma_sorted_blocks_check(bv);
    assert(bundle_views(p.bundles@) =~= Seq::<BundleView>::empty());
    assert(bundle_id_values(bundle_views(p.bundles@)) =~= Seq::<u64>::empty());
    let ms = Map::new(|k: u64| exists|i: int| 0 <= i < bv.len() && (#[trigger] bv[i]).block_id.0 == k,
        |k: u64| bv[choose|i: int| 0 <= i < bv.len() && (#[trigger] bv[i]).block_id.0 == k]);
    assert(insert_bundles(ms, Map::empty(), bundle_views(p.bundles@)) == Ok::<Map<u64, BundleView>, CatalogError>(Map::empty()));
    assert forall|i: int| 0 <= i < block_ids.len() implies ms.contains_key((#[trigger] block_ids[i]).0) && ms[block_ids[i].0] == bm[block_ids[i].0] by {
        let k = block_ids[i].0;
        assert(names_block(wanted, k)) by {
            assert(wanted[i] == block_ids[i]);
        }
        let a = choose|a: int| 0 <= a < bv.len() && (#[trigger] bv[a]).block_id.0 == k;
        assert(bv[a] == bm[k]);
    }
}

// ---------------------------------------------------------------------------
// Assembly candidates over catalog material
// ---------------------------------------------------------------------------

/// `a` ranks strictly before `b`: higher agreement, then more support, then
/// less ambiguity, then a cheaper wire form, then the larger structural hash.
pub open spec fn extraction_before(a: AssemblyExtractionCandidate, b: AssemblyExtractionCandidate) -> bool {
    ||| a.agreement.agreement_score > b.agreement.agreement_score
    ||| a.agreement.agreement_score == b.agreement.agreement_score && a.agreement.support_count > b.agreement.support_count
    ||| a.agreement.agreement_score == b.agreement.agreement_score && a.agreement.support_count == b.agreement.support_count
        && a.agreement.ambiguity < b.agreement.ambiguity
    ||| a.agreement.agreement_score == b.agreement.agreement_score && a.agreement.support_count == b.agreement.support_count
        && a.agreement.ambiguity == b.agreement.ambiguity && a.agreement.estimated_wire_cost < b.agreement.estimated_wire_cost
    ||| a.agreement.agreement_score == b.agreement.agreement_score && a.agreement.support_count == b.agreement.support_count
        && a.agreement.ambiguity == b.agreement.ambiguity && a.agreement.estimated_wire_cost == b.agreement.estimated_wire_cost
        && a.structural_hash > b.structural_hash
}

pub open spec fn extraction_insert_pos(s: Seq<AssemblyExtractionCandidate>, x: AssemblyExtractionCandidate) -> nat
    decreases s.len(),
{
    if s.len() == 0 {
        0
    } else if extraction_before(x, s[0]) {
        0
    } else {
        1 + extraction_insert_pos(s.drop_first(), x)
    }
}

/// The candidates ranked, equal ones in their original order.
pub open spec fn extraction_sorted(s: Seq<AssemblyExtractionCandidate>) -> Seq<AssemblyExtractionCandidate>
    decreases s.len(),
{
    if s.len() == 0 {
        s
    } else {
        let t = extraction_sorted(s.drop_last());
        t.insert(extraction_insert_pos(t, s.last()) as int, s.last())
    }
}

/// Each run of candidates with the same structural hash, kept as its first.
pub open spec fn dedup_by_hash(s: Seq<AssemblyExtractionCandidate>) -> Seq<AssemblyExtractionCandidate>
    decreases s.len(),
{
    if s.len() == 0 {
        s
    } else {
        let t = dedup_by_hash(s.drop_last());
        if t.len() > 0 && t.last().structural_hash == s.last().structural_hash {
            t
        } else {
            t.push(s.last())
        }
    }
}

proof fn lemma_extraction_insert_pos_bound(s: Seq<AssemblyExtractionCandidate>, x: AssemblyExtractionCandidate)
    ensures
        extraction_insert_pos(s, x) <= s.len(),
    decreases s.len(),
{
    if s.len() > 0 {
        lemma_extraction_insert_pos_bound(s.drop_first(), x);
    }
}

proof fn lemma_extraction_sorted_len(s: Seq<AssemblyExtractionCandidate>)
    ensures
        extraction_sorted(s).len() == s.len(),
    decreases s.len(),
{
    if s.len() > 0 {
        lemma_extraction_sorted_len(s.drop_last());
        lemma_extraction_insert_pos_bound(extraction_sorted(s.drop_last()), s.last());
    }
}

fn extraction_find_pos(v: &Vec<AssemblyExtractionCandidate>, x: &AssemblyExtractionCandidate) -> (p: usize)
    ensures
        p == extraction_insert_pos(v@, *x),
{
    let mut i: usize = 0;
    assert(v@.subrange(0, v@.len() as int) =~= v@);
    while i < v.len()
        invariant
            i <= v@.len(),
            extraction_insert_pos(v@, *x) == i + extraction_insert_pos(v@.subrange(i as int, v@.len() as int), *x),
        decreases v@.len() - i,
    {
        proof {
            let rest = v@.subrange(i as int, v@.len() as int);
            assert(rest[0] == v@[i as int]);
            assert(rest.drop_first() =~= v@.subrange(i + 1, v@.len() as int));
        }
        let e = &v[i];
        let a = &x.agreement;
        let b = &e.agreement;
        let before = a.agreement_score > b.agreement_score || (a.agreement_score == b.agreement_score && a.support_count > b.support_count)
            || (a.agreement_score == b.agreement_score && a.support_count == b.support_count && a.ambiguity < b.ambiguity) || (
        a.agreement_score == b.agreement_score && a.support_count == b.support_count && a.ambiguity == b.ambiguity
            && a.estimated_wire_cost < b.estimated_wire_cost) || (a.agreement_score == b.agreement_score && a.support_count
            == b.support_count && a.ambiguity == b.ambiguity && a.estimated_wire_cost == b.estimated_wire_cost
            && x.structural_hash > e.structural_hash);
        if before {
            return i;
        }
        i = i + 1;
    }
    proof {
        assert(v@.subrange(i as int, v@.len() as int).len() == 0);
    }
    i
}

/// Moves every candidate of `from` into `sorted`, in order, each at its rank.
fn insert_all_ranked(sorted: &mut Vec<AssemblyExtractionCandidate>, from: Vec<AssemblyExtractionCandidate>, all: Ghost<Seq<AssemblyExtractionCandidate>>)
    requires
        old(sorted)@ == extraction_sorted(all@),
    ensures
        final(sorted)@ == extraction_sorted(all@ + from@),
{
    let mut rest = from;
    let ghost src = rest@;
    let ghost mut seen: Seq<AssemblyExtractionCandidate> = all@;
    while rest.len() > 0
        invariant
            sorted@ == extraction_sorted(seen),
            seen + rest@ == all@ + src,
        decreases rest@.len(),
    {
        let x = rest.remove(0);
        proof {
            lemma_extraction_sorted_len(seen);
            lemma_extraction_insert_pos_bound(sorted@, x);
        }
        let p = extraction_find_pos(sorted, &x);
        sorted.insert(p, x);
        proof {
            assert(seen.push(x).drop_last() =~= seen);
            let s0 = seen;
            seen = seen.push(x);
            assert(seen + rest@ =~= s0 + (seq![x] + rest@));
        }
    }
    assert(seen =~= all@ + src);
}

/// The candidates from all four extractors, ranked, with each run of equal
/// structural hashes kept as its first, at most sixteen.
pub fn extract_catalog_assembly_candidates(
    source_kind: SourceKind,
    bytes: &[u8],
    config: AssemblyExtractionConfig,
) -> (r: Vec<AssemblyExtractionCandidate>)
    requires
        bytes@.len() <= 0xfffe_0000,
    ensures
        exists|m: Seq<AssemblyExtractionCandidate>, d: Seq<AssemblyExtractionCandidate>, l: Seq<AssemblyExtractionCandidate>, s: Seq<AssemblyExtractionCandidate>| {
            &&& r@ == first_n(dedup_by_hash(extraction_sorted(m + d + l + s)), 16)
            &&& m.len() == first_up_to(motif_starts(bytes@, motif_min_len(config), motif_max_len(config), if bytes@.len() < 256 { bytes@.len() } else { 256 }), 8).len()
            &&& (forall|i: int| 0 <= i < m.len() ==> motif_candidate(#[trigger] m[i], bytes@, first_up_to(motif_starts(bytes@, motif_min_len(config), motif_max_len(config), if bytes@.len() < 256 { bytes@.len() } else { 256 }), 8)[i], motif_max_len(config)))
            &&& d.len() == first_up_to(field_group_indices(bytes@, config, split_from(bytes@, 0, 0, false).len()), 8).len()
            &&& (forall|i: int| 0 <= i < d.len() ==> field_group_candidate(#[trigger] d[i], bytes@, config, first_up_to(field_group_indices(bytes@, config, split_from(bytes@, 0, 0, false).len()), 8)[i]))
            &&& l.len() == first_up_to(delimited_segments(bytes@, config.min_motif_len as nat, 0, None), 8).len()
            &&& (forall|i: int| 0 <= i < l.len() ==> delimited_candidate(#[trigger] l[i], bytes@, first_up_to(delimited_segments(bytes@, config.min_motif_len as nat, 0, None), 8)[i].0, first_up_to(delimited_segments(bytes@, config.min_motif_len as nat, 0, None), 8)[i].1))
            &&& (match slot_bracket_from(bytes@, config, 0) {
                None => s.len() == 0,
                Some(o) => {
                    &&& s.len() == first_up_to(slot_structures(bytes@, config, o), 8).len()
                    &&& forall|i: int| 0 <= i < s.len() ==> slot_candidate(#[trigger] s[i], bytes@, config, o, slot_structures(bytes@, config, o)[i].0, slot_structures(bytes@, config, o)[i].1)
                },
            })
        },
{
    let motifs = extract_contiguous_motif_candidates(source_kind, bytes, config);
    let groups = extract_discontinuous_field_group_candidates(source_kind, bytes, config);
    let delimited = extract_delimiter_bounded_candidates(source_kind, bytes, config);
    let slotted = extract_slot_bearing_candidates(source_kind, bytes, config);
    let ghost m = motifs@;
    let ghost d = groups@;
    let ghost l = delimited@;
    let ghost s = slotted@;
    let mut sorted: Vec<AssemblyExtractionCandidate> = Vec::new();
    assert(Seq::<AssemblyExtractionCandidate>::empty() + m =~= m);
    insert_all_ranked(&mut sorted, motifs, Ghost(Seq::empty()));
    insert_all_ranked(&mut sorted, groups, Ghost(m));
    insert_all_ranked(&mut sorted, delimited, Ghost(m + d));
    insert_all_ranked(&mut sorted, slotted, Ghost(m + d + l));
    let ghost ranked = sorted@;
    let mut out: Vec<AssemblyExtractionCandidate> = Vec::new();
    let ghost mut seen: Seq<AssemblyExtractionCandidate> = Seq::empty();
    while sorted.len() > 0
        invariant
            seen + sorted@ == ranked,
            out@ == dedup_by_hash(seen),
        decreases sorted@.len(),
    {
        let x = sorted.remove(0);
        let keep = out.len() == 0 || out[out.len() - 1].structural_hash != x.structural_hash;
        proof {
            assert(seen.push(x).drop_last() =~= seen);
        }
        if keep {
            out.push(x);
        }
        proof {
            let s0 = seen;
            seen = seen.push(x);
            assert(seen + sorted@ =~= s0 + (seq![x] + sorted@));
        }
    }
    assert(seen =~= ranked);
    out.truncate(16);
    out
}

} // verus!
