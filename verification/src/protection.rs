//! Record protection: the per-stream state machine that seals and opens
//! records with keys derived from a ratcheting root, checks stream, epoch and
//! sequence numbers, installs rekeys, and closes the stream on any failure
//! to open. Key derivation (HKDF-SHA256) and the AEAD (ChaCha20-Poly1305)
//! are the outside crates' code.

use vstd::prelude::*;
use crate::protocol::{
    CLOSE_CODE_LEN, EpochId, POST_REKEY_CONFIRM, REKEY_PAYLOAD_LEN, REKEY_SEED_LEN, Record,
    RecordFlags, RecordHeader, RecordType, SeqNo, StreamId, StreamState, ValidationError, WireError,
    header_bytes, record_check,
};
use chacha20poly1305::aead::{AeadInPlace, KeyInit};
use crate::wire::{append_bytes, push_u32_le, push_u64_le, u32_at, u32_le, u64_le};

verus! {

pub const STREAM_ROOT_LEN: usize = 32;

/// The protection profiles an endpoint may run.
#[derive(Debug, Clone, Copy, PartialEq, Eq, Default, Structural)]
pub enum ProtectionProfileKind {
    ClassicRef1,
    PqSimpleV1,
    PqSimpleDgramV1,
    #[default]
    PqMutualV1,
    PqMutualDgramV1,
}

pub const DEFAULT_PROTECTION_PROFILE_KIND: ProtectionProfileKind = ProtectionProfileKind::PqMutualV1;

impl ProtectionProfileKind {
    pub fn slug(self) -> (s: &'static str)
        ensures
            s@ == (match self {
                ProtectionProfileKind::ClassicRef1 => "classic_ref1"@,
                ProtectionProfileKind::PqSimpleV1 => "pq_simple_v1"@,
                ProtectionProfileKind::PqSimpleDgramV1 => "pq_simple_dgram_v1"@,
                ProtectionProfileKind::PqMutualV1 => "pq_mutual_v1"@,
                ProtectionProfileKind::PqMutualDgramV1 => "pq_mutual_dgram_v1"@,
            }),
    {
        match self {
            ProtectionProfileKind::ClassicRef1 => "classic_ref1",
            ProtectionProfileKind::PqSimpleV1 => "pq_simple_v1",
            ProtectionProfileKind::PqSimpleDgramV1 => "pq_simple_dgram_v1",
            ProtectionProfileKind::PqMutualV1 => "pq_mutual_v1",
            ProtectionProfileKind::PqMutualDgramV1 => "pq_mutual_dgram_v1",
        }
    }

    pub fn is_simple_family(self) -> (b: bool)
        ensures
            b == (self == ProtectionProfileKind::PqSimpleV1 || self == ProtectionProfileKind::PqSimpleDgramV1),
    {
        match self {
            ProtectionProfileKind::PqSimpleV1 | ProtectionProfileKind::PqSimpleDgramV1 => true,
            _ => false,
        }
    }

    pub fn is_mutual_family(self) -> (b: bool)
        ensures
            b == (self == ProtectionProfileKind::PqMutualV1 || self == ProtectionProfileKind::PqMutualDgramV1),
    {
        match self {
            ProtectionProfileKind::PqMutualV1 | ProtectionProfileKind::PqMutualDgramV1 => true,
            _ => false,
        }
    }

    pub fn is_datagram_family(self) -> (b: bool)
        ensures
            b == (self == ProtectionProfileKind::PqSimpleDgramV1 || self
                == ProtectionProfileKind::PqMutualDgramV1),
    {
        match self {
            ProtectionProfileKind::PqSimpleDgramV1 | ProtectionProfileKind::PqMutualDgramV1 => true,
            _ => false,
        }
    }

    /// The stream profile of a datagram profile; other profiles are their own.
    pub fn canonical_stream_profile(self) -> (k: Self)
        ensures
            k == (match self {
                ProtectionProfileKind::PqSimpleDgramV1 => ProtectionProfileKind::PqSimpleV1,
                ProtectionProfileKind::PqMutualDgramV1 => ProtectionProfileKind::PqMutualV1,
                other => other,
            }),
    {
        match self {
            ProtectionProfileKind::PqSimpleDgramV1 => ProtectionProfileKind::PqSimpleV1,
            ProtectionProfileKind::PqMutualDgramV1 => ProtectionProfileKind::PqMutualV1,
            other => other,
        }
    }

    /// The datagram profile of a family; the classic profile has none and stays.
    pub fn datagram_variant(self) -> (k: Self)
        ensures
            k == (match self {
                ProtectionProfileKind::PqSimpleV1 | ProtectionProfileKind::PqSimpleDgramV1 => ProtectionProfileKind::PqSimpleDgramV1,
                ProtectionProfileKind::PqMutualV1 | ProtectionProfileKind::PqMutualDgramV1 => ProtectionProfileKind::PqMutualDgramV1,
                ProtectionProfileKind::ClassicRef1 => ProtectionProfileKind::ClassicRef1,
            }),
    {
        match self {
            ProtectionProfileKind::PqSimpleV1 | ProtectionProfileKind::PqSimpleDgramV1 => ProtectionProfileKind::PqSimpleDgramV1,
            ProtectionProfileKind::PqMutualV1 | ProtectionProfileKind::PqMutualDgramV1 => ProtectionProfileKind::PqMutualDgramV1,
            ProtectionProfileKind::ClassicRef1 => ProtectionProfileKind::ClassicRef1,
        }
    }
}

#[derive(Debug, Clone, Copy, PartialEq, Eq, Structural)]
pub enum StreamDirection {
    ClientToServer,
    ServerToClient,
}

/// The label that binds a rekeyed root to its direction: `root/c2s/` or `root/s2c/`.
pub open spec fn root_label(d: StreamDirection) -> Seq<u8> {
    match d {
        StreamDirection::ClientToServer => seq![0x72u8, 0x6f, 0x6f, 0x74, 0x2f, 0x63, 0x32, 0x73, 0x2f],
        StreamDirection::ServerToClient => seq![0x72u8, 0x6f, 0x6f, 0x74, 0x2f, 0x73, 0x32, 0x63, 0x2f],
    }
}

fn push_root_label(out: &mut Vec<u8>, d: StreamDirection)
    ensures
        final(out)@ == old(out)@ + root_label(d),
{
    let ghost start = out@;
    out.push(0x72);
    out.push(0x6f);
    out.push(0x6f);
    out.push(0x74);
    out.push(0x2f);
    match d {
        StreamDirection::ClientToServer => {
            out.push(0x63);
            out.push(0x32);
            out.push(0x73);
        },
        StreamDirection::ServerToClient => {
            out.push(0x73);
            out.push(0x32);
            out.push(0x63);
        },
    }
    out.push(0x2f);
    assert(out@ =~= start + root_label(d));
}

/// A rekey record's payload: the next epoch and the seed of its root.
#[derive(Debug, Clone, Copy, PartialEq, Eq)]
pub struct RekeyPayload {
    pub next_epoch_id: EpochId,
    pub rekey_seed: [u8; 32],
}

/// The 36 bytes of a rekey payload: the epoch, little-endian, then the seed.
pub open spec fn rekey_bytes(next_epoch: EpochId, seed: Seq<u8>) -> Seq<u8> {
    u32_le(next_epoch.0) + seed
}

impl RekeyPayload {
    pub fn encode(self) -> (out: [u8; 36])
        ensures
            out@ == rekey_bytes(self.next_epoch_id, self.rekey_seed@),
    {
        let mut out = [0u8; 36];
        let e = self.next_epoch_id.0;
        out[0] = (e & 0xff) as u8;
        out[1] = ((e >> 8) & 0xff) as u8;
        out[2] = ((e >> 16) & 0xff) as u8;
        out[3] = ((e >> 24) & 0xff) as u8;
        let mut i: usize = 0;
        while i < 32
            invariant
                i <= 32,
                out@.len() == 36,
                out@.subrange(0, 4) == u32_le(e),
                forall|j: int| 0 <= j < i ==> out@[4 + j] == self.rekey_seed@[j],
            decreases 32 - i,
        {
            out[4 + i] = self.rekey_seed[i];
            i = i + 1;
        }
        assert(out@ =~= rekey_bytes(self.next_epoch_id, self.rekey_seed@));
        out
    }

    /// Reads a rekey payload; it must be exactly 36 bytes.
    pub fn decode(bytes: &[u8]) -> (r: Result<RekeyPayload, ProtectionError>)
        ensures
            bytes@.len() != REKEY_PAYLOAD_LEN ==> r == Err::<RekeyPayload, ProtectionError>(
                ProtectionError::InvalidRekeyPayload { actual_len: bytes@.len() as usize },
            ),
            bytes@.len() == REKEY_PAYLOAD_LEN ==> (r matches Ok(p) && p.next_epoch_id == EpochId(
                u32_at(bytes@, 0),
            ) && p.rekey_seed@ == bytes@.subrange(4, 36)),
    {
        if bytes.len() != REKEY_PAYLOAD_LEN {
            return Err(ProtectionError::InvalidRekeyPayload { actual_len: bytes.len() });
        }
        let mut seed = [0u8; 32];
        let mut i: usize = 0;
        while i < 32
            invariant
                i <= 32,
                bytes@.len() == 36,
                seed@.len() == 32,
                forall|j: int| 0 <= j < i ==> seed@[j] == bytes@[4 + j],
            decreases 32 - i,
        {
            seed[i] = bytes[4 + i];
            i = i + 1;
        }
        assert(seed@ =~= bytes@.subrange(4, 36));
        Ok(RekeyPayload { next_epoch_id: EpochId(crate::wire::read_u32_le(bytes, 0)), rekey_seed: seed })
    }
}

/// Reading back an encoded rekey payload gives it back.
pub proof fn lemma_rekey_roundtrip(next_epoch: EpochId, seed: Seq<u8>)
    requires
        seed.len() == REKEY_SEED_LEN,
    ensures
        rekey_bytes(next_epoch, seed).len() == REKEY_PAYLOAD_LEN,
        u32_at(rekey_bytes(next_epoch, seed), 0) == next_epoch.0,
        rekey_bytes(next_epoch, seed).subrange(4, 36) == seed,
{
    let b = rekey_bytes(next_epoch, seed);
    assert(b.subrange(0, 4) =~= u32_le(next_epoch.0));
    crate::wire::lemma_u32_le_roundtrip(next_epoch.0, b, 0);
    assert(b.subrange(4, 36) =~= seed);
}

#[derive(Debug, Clone, PartialEq, Eq)]
pub enum ProtectionError {
    Validation(ValidationError),
    Wire(WireError),
    UnexpectedStreamId { expected: StreamId, actual: StreamId },
    UnexpectedSeqNo { expected: SeqNo, actual: SeqNo },
    UnexpectedEpoch { expected: EpochId, actual: EpochId },
    AuthenticationFailure,
    MissingProfile,
    StreamClosed,
    InvalidRekeyPayload { actual_len: usize },
    InvalidClosePayload { actual_len: usize },
    InvalidNextEpoch { current: EpochId, next: EpochId },
    RekeyAlreadyPending,
    MissingPostRekeyConfirm,
    UnexpectedPostRekeyConfirm,
    EmptyTransportFrame,
    TransportFrameRecordCountMismatch { expected: u32, actual: usize },
}

// ---------------------------------------------------------------------------
// Key derivation and AEAD (outside crates)
// ---------------------------------------------------------------------------

/// What HKDF-SHA256 expands to from a pseudorandom key, for an info string
/// and an output length.
pub uninterp spec fn hkdf_from_prk(prk: Seq<u8>, info: Seq<u8>, len: nat) -> Seq<u8>;

/// What HKDF-SHA256 extracts with a salt from input key material and then
/// expands to 32 bytes for an info string.
pub uninterp spec fn hkdf_salted_32(salt: Seq<u8>, ikm: Seq<u8>, info: Seq<u8>) -> Seq<u8>;

/// The ciphertext and tag that ChaCha20-Poly1305 gives for a key, nonce,
/// associated data and plaintext.
pub uninterp spec fn aead_sealed(key: Seq<u8>, nonce: Seq<u8>, aad: Seq<u8>, plaintext: Seq<u8>) -> (Seq<u8>, Seq<u8>);

/// `hkdf::Hkdf::<Sha256>::from_prk` then `expand` into `len` bytes. The
/// crate accepts a key of at least 32 bytes and an output of at most
/// 255 × 32 bytes, and the output is a function of the key, info and length.
#[verifier::external_body]
fn hkdf_expand_prk(prk: &[u8], info: &[u8], len: usize) -> (out: Vec<u8>)
    requires
        prk@.len() >= 32,
        len <= 8160,
    ensures
        out@ == hkdf_from_prk(prk@, info@, len as nat),
        out@.len() == len,
{
    let hk = hkdf::Hkdf::<sha2::Sha256>::from_prk(prk).unwrap();
    let mut okm = vec![0u8; len];
    hk.expand(info, &mut okm).unwrap();
    okm
}

/// `hkdf::Hkdf::<Sha256>::new(Some(salt), ikm)` then `expand` into 32
/// bytes; the output is a function of the salt, key material and info.
#[verifier::external_body]
pub(crate) fn hkdf_salted_expand_32(salt: &[u8], ikm: &[u8], info: &[u8]) -> (out: Vec<u8>)
    ensures
        out@ == hkdf_salted_32(salt@, ikm@, info@),
        out@.len() == 32,
{
    let hk = hkdf::Hkdf::<sha2::Sha256>::new(Some(salt), ikm);
    let mut okm = vec![0u8; 32];
    hk.expand(info, &mut okm).unwrap();
    okm
}

/// Whether ChaCha20-Poly1305 takes a message of this length: the crate
/// refuses one of `u32::MAX` 64-byte blocks or more.
pub open spec fn aead_len_ok(len: nat) -> bool {
    len / 64 < u32::MAX
}

/// `ChaCha20Poly1305::encrypt_in_place_detached` on a copy of the plaintext.
/// It succeeds exactly when the length is accepted; the ciphertext has the
/// plaintext's length and, with the tag, is a function of the key, nonce,
/// associated data and plaintext.
#[verifier::external_body]
fn aead_seal(key: &[u8; 32], nonce: &[u8; 12], aad: &[u8], plaintext: &[u8]) -> (r: Option<(Vec<u8>, [u8; 16])>)
    ensures
        r is Some <==> aead_len_ok(plaintext@.len()),
        r matches Some((ct, tag)) ==> (ct@, tag@) == aead_sealed(key@, nonce@, aad@, plaintext@)
            && ct@.len() == plaintext@.len(),
{
    let cipher = chacha20poly1305::ChaCha20Poly1305::new(key.into());
    let mut buf = plaintext.to_vec();
    match cipher.encrypt_in_place_detached(nonce.into(), aad, &mut buf) {
        Ok(tag) => Some((buf, tag.into())),
        Err(_) => None,
    }
}

/// `ChaCha20Poly1305::decrypt_in_place_detached` on a copy of the
/// ciphertext. It opens only what sealing some plaintext gives, and it opens
/// every such ciphertext and tag to that plaintext (the crate checks the
/// tag over the associated data and ciphertext, then removes the keystream).
#[verifier::external_body]
fn aead_open(key: &[u8; 32], nonce: &[u8; 12], aad: &[u8], ciphertext: &[u8], tag: &[u8; 16]) -> (r: Option<Vec<u8>>)
    ensures
        r matches Some(p) ==> aead_sealed(key@, nonce@, aad@, p@) == (ciphertext@, tag@)
            && aead_len_ok(p@.len()),
        r matches Some(q) ==> forall|p: Seq<u8>| aead_len_ok(p.len()) && #[trigger] aead_sealed(
            key@,
            nonce@,
            aad@,
            p,
        ) == (ciphertext@, tag@) ==> q@ == p,
        r is None ==> forall|p: Seq<u8>| aead_len_ok(p.len()) ==> #[trigger] aead_sealed(
            key@,
            nonce@,
            aad@,
            p,
        ) != (ciphertext@, tag@),
{
    let cipher = chacha20poly1305::ChaCha20Poly1305::new(key.into());
    let mut buf = ciphertext.to_vec();
    match cipher.decrypt_in_place_detached(nonce.into(), aad, &mut buf, tag.into()) {
        Ok(()) => Some(buf),
        Err(_) => None,
    }
}

fn to_array32(v: &Vec<u8>) -> (a: [u8; 32])
    requires
        v@.len() == 32,
    ensures
        a@ == v@,
{
    let mut a = [0u8; 32];
    let mut i: usize = 0;
    while i < 32
        invariant
            i <= 32,
            v@.len() == 32,
            a@.len() == 32,
            forall|j: int| 0 <= j < i ==> a@[j] == v@[j],
        decreases 32 - i,
    {
        a[i] = v[i];
        i = i + 1;
    }
    assert(a@ =~= v@);
    a
}

fn to_array12(v: &Vec<u8>) -> (a: [u8; 12])
    requires
        v@.len() == 12,
    ensures
        a@ == v@,
{
    let mut a = [0u8; 12];
    let mut i: usize = 0;
    while i < 12
        invariant
            i <= 12,
            v@.len() == 12,
            a@.len() == 12,
            forall|j: int| 0 <= j < i ==> a@[j] == v@[j],
        decreases 12 - i,
    {
        a[i] = v[i];
        i = i + 1;
    }
    assert(a@ =~= v@);
    a
}

/// `key`, `nonce` and `next` as ASCII bytes.
pub open spec fn label_key() -> Seq<u8> {
    seq![0x6bu8, 0x65, 0x79]
}

pub open spec fn label_nonce() -> Seq<u8> {
    seq![0x6eu8, 0x6f, 0x6e, 0x63, 0x65]
}

pub open spec fn label_next() -> Seq<u8> {
    seq![0x6eu8, 0x65, 0x78, 0x74]
}

/// `rekey` as ASCII bytes.
pub open spec fn label_rekey() -> Seq<u8> {
    seq![0x72u8, 0x65, 0x6b, 0x65, 0x79]
}

/// The key, nonce and next root of a record, derived from the active root,
/// the epoch and the sequence number.
pub open spec fn record_material(root: Seq<u8>, epoch: EpochId, seq: SeqNo) -> (Seq<u8>, Seq<u8>, Seq<u8>) {
    let tail = u32_le(epoch.0) + u64_le(seq.0);
    (
        hkdf_from_prk(root, label_key() + tail, 32),
        hkdf_from_prk(root, label_nonce() + tail, 12),
        hkdf_from_prk(root, label_next() + tail, 32),
    )
}

fn derive_record_material(root: &[u8; 32], epoch: EpochId, seq: SeqNo) -> (r: ([u8; 32], [u8; 12], [u8; 32]))
    ensures
        (r.0@, r.1@, r.2@) == record_material(root@, epoch, seq),
{
    let mut info_key: Vec<u8> = Vec::new();
    info_key.push(0x6b);
    info_key.push(0x65);
    info_key.push(0x79);
    push_u32_le(&mut info_key, epoch.0);
    push_u64_le(&mut info_key, seq.0);
    let mut info_nonce: Vec<u8> = Vec::new();
    info_nonce.push(0x6e);
    info_nonce.push(0x6f);
    info_nonce.push(0x6e);
    info_nonce.push(0x63);
    info_nonce.push(0x65);
    push_u32_le(&mut info_nonce, epoch.0);
    push_u64_le(&mut info_nonce, seq.0);
    let mut info_next: Vec<u8> = Vec::new();
    info_next.push(0x6e);
    info_next.push(0x65);
    info_next.push(0x78);
    info_next.push(0x74);
    push_u32_le(&mut info_next, epoch.0);
    push_u64_le(&mut info_next, seq.0);
    let ghost tail = u32_le(epoch.0) + u64_le(seq.0);
    assert(info_key@ =~= label_key() + tail);
    assert(info_nonce@ =~= label_nonce() + tail);
    assert(info_next@ =~= label_next() + tail);
    let key = hkdf_expand_prk(root.as_slice(), info_key.as_slice(), 32);
    let nonce = hkdf_expand_prk(root.as_slice(), info_nonce.as_slice(), 12);
    let next = hkdf_expand_prk(root.as_slice(), info_next.as_slice(), 32);
    (to_array32(&key), to_array12(&nonce), to_array32(&next))
}

/// The root of the next epoch: HKDF with salt `rekey` and the current
/// epoch, over the current root and the seed, with the direction's label
/// and the next epoch as info.
pub open spec fn rekey_root(d: StreamDirection, root: Seq<u8>, current: EpochId, next: EpochId, seed: Seq<u8>) -> Seq<u8> {
    hkdf_salted_32(label_rekey() + u32_le(current.0), root + seed, root_label(d) + u32_le(next.0))
}

fn derive_rekey_root(d: StreamDirection, root: &[u8; 32], current: EpochId, next: EpochId, seed: &[u8; 32]) -> (r: [u8; 32])
    ensures
        r@ == rekey_root(d, root@, current, next, seed@),
{
    let mut salt: Vec<u8> = Vec::new();
    salt.push(0x72);
    salt.push(0x65);
    salt.push(0x6b);
    salt.push(0x65);
    salt.push(0x79);
    push_u32_le(&mut salt, current.0);
    let mut ikm: Vec<u8> = Vec::new();
    append_bytes(&mut ikm, root.as_slice());
    append_bytes(&mut ikm, seed.as_slice());
    let mut info: Vec<u8> = Vec::new();
    push_root_label(&mut info, d);
    push_u32_le(&mut info, next.0);
    assert(salt@ =~= label_rekey() + u32_le(current.0));
    assert(ikm@ =~= root@ + seed@);
    assert(info@ =~= root_label(d) + u32_le(next.0));
    let out = hkdf_salted_expand_32(salt.as_slice(), ikm.as_slice(), info.as_slice());
    to_array32(&out)
}

// ---------------------------------------------------------------------------
// The stream protector
// ---------------------------------------------------------------------------

/// The protector's state as values: profile, stream, direction, stream state,
/// current epoch, next sequence number, current root and the pending rekey
/// (next epoch and its root), if any.
pub struct ProtectorView {
    pub kind: ProtectionProfileKind,
    pub stream_id: StreamId,
    pub direction: StreamDirection,
    pub state: StreamState,
    pub epoch: EpochId,
    pub next_seq: SeqNo,
    pub root: Seq<u8>,
    pub pending: Option<(EpochId, Seq<u8>)>,
}

#[derive(Debug, Clone, Copy, PartialEq, Eq)]
struct PendingRekey {
    next_epoch_id: EpochId,
    next_root: [u8; 32],
}

/// One direction of a stream: seals (or opens) its records in order.
#[derive(Debug, Clone)]
pub struct StreamProtector {
    kind: ProtectionProfileKind,
    stream_id: StreamId,
    direction: StreamDirection,
    stream_state: StreamState,
    current_epoch_id: EpochId,
    next_seq_no: SeqNo,
    current_root: [u8; 32],
    pending_rekey: Option<PendingRekey>,
}

/// A record as values: header, payload, tag.
pub open spec fn record_view(r: Record) -> (RecordHeader, Seq<u8>, Seq<u8>) {
    (r.header, r.payload@, r.auth_tag@)
}

/// The epoch a record must carry.
pub open spec fn expected_epoch(s: ProtectorView) -> EpochId {
    match s.pending {
        Some((e, _)) => e,
        None => s.epoch,
    }
}

/// The sequence number a record must carry: zero right after a rekey.
pub open spec fn expected_seq(s: ProtectorView) -> SeqNo {
    if s.pending is Some {
        SeqNo(0)
    } else {
        s.next_seq
    }
}

pub open spec fn with_flag(h: RecordHeader, flag: u16) -> RecordHeader {
    RecordHeader { flags: RecordFlags(h.flags.0 | flag), ..h }
}

/// Checks a record to be sealed against the stream; while a rekey is pending
/// the record gets the rekey-confirm flag.
pub open spec fn prepare_spec(s: ProtectorView, h: RecordHeader) -> Result<RecordHeader, ProtectionError> {
    if h.stream_id != s.stream_id {
        Err(ProtectionError::UnexpectedStreamId { expected: s.stream_id, actual: h.stream_id })
    } else if s.pending is None && h.flags.contains_spec(POST_REKEY_CONFIRM) {
        Err(ProtectionError::UnexpectedPostRekeyConfirm)
    } else {
        let h1 = if s.pending is Some && !h.flags.contains_spec(POST_REKEY_CONFIRM) {
            with_flag(h, POST_REKEY_CONFIRM)
        } else {
            h
        };
        if h1.epoch_id != expected_epoch(s) {
            Err(ProtectionError::UnexpectedEpoch { expected: expected_epoch(s), actual: h1.epoch_id })
        } else if h1.seq_no != expected_seq(s) {
            Err(ProtectionError::UnexpectedSeqNo { expected: expected_seq(s), actual: h1.seq_no })
        } else {
            Ok(h1)
        }
    }
}

/// The root that keys a record with this header, or why the header does not
/// fit the stream.
pub open spec fn active_root_spec(s: ProtectorView, h: RecordHeader) -> Result<Seq<u8>, ProtectionError> {
    if h.stream_id != s.stream_id {
        Err(ProtectionError::UnexpectedStreamId { expected: s.stream_id, actual: h.stream_id })
    } else {
        match s.pending {
            Some((e, root)) => if !h.flags.contains_spec(POST_REKEY_CONFIRM) {
                Err(ProtectionError::MissingPostRekeyConfirm)
            } else if h.epoch_id != e {
                Err(ProtectionError::UnexpectedEpoch { expected: e, actual: h.epoch_id })
            } else if h.seq_no != SeqNo(0) {
                Err(ProtectionError::UnexpectedSeqNo { expected: SeqNo(0), actual: h.seq_no })
            } else {
                Ok(root)
            },
            None => if h.flags.contains_spec(POST_REKEY_CONFIRM) {
                Err(ProtectionError::UnexpectedPostRekeyConfirm)
            } else if h.epoch_id != s.epoch {
                Err(ProtectionError::UnexpectedEpoch { expected: s.epoch, actual: h.epoch_id })
            } else if h.seq_no != s.next_seq {
                Err(ProtectionError::UnexpectedSeqNo { expected: s.next_seq, actual: h.seq_no })
            } else {
                Ok(s.root)
            },
        }
    }
}

/// Installing a rekey from a rekey record's plaintext.
pub open spec fn install_spec(s: ProtectorView, plaintext: Seq<u8>) -> (ProtectorView, Result<(), ProtectionError>) {
    if s.pending is Some {
        (s, Err(ProtectionError::RekeyAlreadyPending))
    } else if plaintext.len() != REKEY_PAYLOAD_LEN {
        (s, Err(ProtectionError::InvalidRekeyPayload { actual_len: plaintext.len() as usize }))
    } else {
        let next = EpochId(u32_at(plaintext, 0));
        if next.0 != s.epoch.0 + 1 {
            (s, Err(ProtectionError::InvalidNextEpoch { current: s.epoch, next }))
        } else {
            let root = rekey_root(s.direction, s.root, s.epoch, next, plaintext.subrange(4, 36));
            (
                ProtectorView {
                    pending: Some((next, root)),
                    state: StreamState::RekeyPending { next_epoch_id: next },
                    ..s
                },
                Ok(()),
            )
        }
    }
}

/// The state after a record is sealed or opened: the ratchet advances (into
/// the pending epoch, if one was pending), then a rekey record installs the
/// next epoch and a close record closes the stream.
pub open spec fn finish_spec(s: ProtectorView, h: RecordHeader, plaintext: Seq<u8>, next_root: Seq<u8>) -> (ProtectorView, Result<(), ProtectionError>) {
    let s1 = match s.pending {
        Some((e, _)) => ProtectorView {
            epoch: e,
            root: next_root,
            next_seq: SeqNo((h.seq_no.0 + 1) as u64),
            state: StreamState::Established,
            pending: None,
            ..s
        },
        None => ProtectorView {
            root: next_root,
            next_seq: SeqNo((h.seq_no.0 + 1) as u64),
            state: if s.state is Closed {
                StreamState::Closed
            } else {
                StreamState::Established
            },
            ..s
        },
    };
    match h.record_type {
        RecordType::Rekey => install_spec(s1, plaintext),
        RecordType::Close => if !(plaintext.len() == 0 || plaintext.len() == CLOSE_CODE_LEN) {
            (s1, Err(ProtectionError::InvalidClosePayload { actual_len: plaintext.len() as usize }))
        } else {
            (ProtectorView { state: StreamState::Closed, ..s1 }, Ok(()))
        },
        _ => (s1, Ok(())),
    }
}

/// Sealing a record: the outcome and the state after it.
pub open spec fn protect_spec(s: ProtectorView, h: RecordHeader, payload: Seq<u8>) -> (ProtectorView, Result<(RecordHeader, Seq<u8>, Seq<u8>), ProtectionError>) {
    if s.state is Closed {
        (s, Err(ProtectionError::StreamClosed))
    } else {
        match record_check(h, payload) {
            Err(e) => (s, Err(ProtectionError::Validation(e))),
            Ok(_) => match prepare_spec(s, h) {
                Err(e) => (s, Err(e)),
                Ok(h1) => match active_root_spec(s, h1) {
                    Err(e) => (s, Err(e)),
                    Ok(root) => {
                        let m = record_material(root, h1.epoch_id, h1.seq_no);
                        if !aead_len_ok(payload.len()) {
                            (s, Err(ProtectionError::AuthenticationFailure))
                        } else {
                            let sealed = aead_sealed(m.0, m.1, header_bytes(h1), payload);
                            let f = finish_spec(s, h1, payload, m.2);
                            match f.1 {
                                Err(e) => (f.0, Err(e)),
                                Ok(_) => (f.0, Ok((h1, sealed.0, sealed.1))),
                            }
                        }
                    },
                },
            },
        }
    }
}

/// A failed open closes the stream and drops any pending rekey.
pub open spec fn failed(s: ProtectorView) -> ProtectorView {
    ProtectorView { pending: None, state: StreamState::Closed, ..s }
}

/// The root that opens a record, or the outcome when the record is refused
/// before any decryption.
pub open spec fn unprotect_root(s: ProtectorView, h: RecordHeader, ct: Seq<u8>) -> Result<Seq<u8>, (ProtectorView, ProtectionError)> {
    if s.state is Closed {
        Err((s, ProtectionError::StreamClosed))
    } else {
        match record_check(h, ct) {
            Err(e) => Err((failed(s), ProtectionError::Validation(e))),
            Ok(_) => match active_root_spec(s, h) {
                Err(e) => Err((failed(s), e)),
                Ok(root) => Ok(root),
            },
        }
    }
}

/// Whether `plaintext` is what the record's ciphertext and tag seal under
/// the keys of `root`.
pub open spec fn seals(root: Seq<u8>, h: RecordHeader, ct: Seq<u8>, tag: Seq<u8>, plaintext: Seq<u8>) -> bool {
    let m = record_material(root, h.epoch_id, h.seq_no);
    aead_len_ok(plaintext.len()) && aead_sealed(m.0, m.1, header_bytes(h), plaintext) == (ct, tag)
}

/// Opening a record whose ciphertext opens to `plaintext` under `root`.
pub open spec fn opened_outcome(s: ProtectorView, h: RecordHeader, tag: Seq<u8>, root: Seq<u8>, plaintext: Seq<u8>) -> (ProtectorView, Result<(RecordHeader, Seq<u8>, Seq<u8>), ProtectionError>) {
    let m = record_material(root, h.epoch_id, h.seq_no);
    let f = finish_spec(s, h, plaintext, m.2);
    match f.1 {
        Err(e) => (failed(f.0), Err(e)),
        Ok(_) => (f.0, Ok((h, plaintext, tag))),
    }
}

impl View for StreamProtector {
    type V = ProtectorView;

    closed spec fn view(&self) -> ProtectorView {
        ProtectorView {
            kind: self.kind,
            stream_id: self.stream_id,
            direction: self.direction,
            state: self.stream_state,
            epoch: self.current_epoch_id,
            next_seq: self.next_seq_no,
            root: self.current_root@,
            pending: match self.pending_rekey {
                Some(p) => Some((p.next_epoch_id, p.next_root@)),
                None => None,
            },
        }
    }
}

/// The protector's arithmetic stays in range: the next sequence number and
/// the epochs can still be incremented.
pub open spec fn counters_ok(s: ProtectorView) -> bool {
    &&& s.next_seq.0 < u64::MAX
    &&& s.epoch.0 < u32::MAX
    &&& (match s.pending {
        Some((e, _)) => e.0 < u32::MAX,
        None => true,
    })
}

impl StreamProtector {
    /// A protector opening a stream in epoch zero from a bootstrap root.
    pub fn from_bootstrap_root(kind: ProtectionProfileKind, stream_id: StreamId, direction: StreamDirection, current_root: [u8; 32]) -> (p: Self)
        ensures
            p@ == (ProtectorView {
                kind,
                stream_id,
                direction,
                state: StreamState::Opening,
                epoch: EpochId(0),
                next_seq: SeqNo(0),
                root: current_root@,
                pending: None,
            }),
    {
        StreamProtector {
            kind,
            stream_id,
            direction,
            stream_state: StreamState::Opening,
            current_epoch_id: EpochId(0),
            next_seq_no: SeqNo(0),
            current_root,
            pending_rekey: None,
        }
    }

    pub fn kind(&self) -> (k: ProtectionProfileKind)
        ensures
            k == self@.kind,
    {
        self.kind
    }

    pub fn stream_id(&self) -> (id: StreamId)
        ensures
            id == self@.stream_id,
    {
        self.stream_id
    }

    pub fn direction(&self) -> (d: StreamDirection)
        ensures
            d == self@.direction,
    {
        self.direction
    }

    pub fn stream_state(&self) -> (st: StreamState)
        ensures
            st == self@.state,
    {
        self.stream_state
    }

    pub fn current_epoch_id(&self) -> (e: EpochId)
        ensures
            e == self@.epoch,
    {
        self.current_epoch_id
    }

    pub fn expected_epoch_id(&self) -> (e: EpochId)
        ensures
            e == expected_epoch(self@),
    {
        match self.pending_rekey {
            Some(p) => p.next_epoch_id,
            None => self.current_epoch_id,
        }
    }

    pub fn expected_seq_no(&self) -> (q: SeqNo)
        ensures
            q == expected_seq(self@),
    {
        if self.pending_rekey.is_some() {
            SeqNo(0)
        } else {
            self.next_seq_no
        }
    }

    pub fn post_rekey_confirm_required(&self) -> (b: bool)
        ensures
            b == (self@.pending is Some),
    {
        self.pending_rekey.is_some()
    }

    /// The current root.
    pub fn bootstrap_root(&self) -> (r: [u8; 32])
        ensures
            r@ == self@.root,
    {
        self.current_root
    }

    /// The payload of a rekey to the next epoch with a given seed.
    pub fn rekey_payload_with_seed(&self, rekey_seed: [u8; 32]) -> (p: RekeyPayload)
        requires
            self@.epoch.0 < u32::MAX,
        ensures
            p.next_epoch_id == EpochId((self@.epoch.0 + 1) as u32),
            p.rekey_seed == rekey_seed,
    {
        RekeyPayload { next_epoch_id: EpochId(self.current_epoch_id.0 + 1), rekey_seed }
    }

    fn prepare_record_for_epoch(&self, header: RecordHeader) -> (r: Result<RecordHeader, ProtectionError>)
        ensures
            r == prepare_spec(self@, header),
    {
        if header.stream_id != self.stream_id {
            return Err(ProtectionError::UnexpectedStreamId { expected: self.stream_id, actual: header.stream_id });
        }
        let mut h = header;
        if self.pending_rekey.is_some() {
            if !h.flags.contains(POST_REKEY_CONFIRM) {
                h.flags.insert(POST_REKEY_CONFIRM);
            }
        } else if h.flags.contains(POST_REKEY_CONFIRM) {
            return Err(ProtectionError::UnexpectedPostRekeyConfirm);
        }
        let expected_epoch = self.expected_epoch_id();
        if h.epoch_id != expected_epoch {
            return Err(ProtectionError::UnexpectedEpoch { expected: expected_epoch, actual: h.epoch_id });
        }
        let expected_seq = self.expected_seq_no();
        if h.seq_no != expected_seq {
            return Err(ProtectionError::UnexpectedSeqNo { expected: expected_seq, actual: h.seq_no });
        }
        Ok(h)
    }

    fn active_root_for(&self, header: &RecordHeader) -> (r: Result<[u8; 32], ProtectionError>)
        ensures
            match active_root_spec(self@, *header) {
                Ok(root) => r matches Ok(a) && a@ == root,
                Err(e) => r == Err::<[u8; 32], ProtectionError>(e),
            },
    {
        if header.stream_id != self.stream_id {
            return Err(ProtectionError::UnexpectedStreamId { expected: self.stream_id, actual: header.stream_id });
        }
        match self.pending_rekey {
            Some(pending) => {
                if !header.flags.contains(POST_REKEY_CONFIRM) {
                    return Err(ProtectionError::MissingPostRekeyConfirm);
                }
                if header.epoch_id != pending.next_epoch_id {
                    return Err(ProtectionError::UnexpectedEpoch { expected: pending.next_epoch_id, actual: header.epoch_id });
                }
                if header.seq_no != SeqNo(0) {
                    return Err(ProtectionError::UnexpectedSeqNo { expected: SeqNo(0), actual: header.seq_no });
                }
                Ok(pending.next_root)
            },
            None => {
                if header.flags.contains(POST_REKEY_CONFIRM) {
                    return Err(ProtectionError::UnexpectedPostRekeyConfirm);
                }
                if header.epoch_id != self.current_epoch_id {
                    return Err(ProtectionError::UnexpectedEpoch { expected: self.current_epoch_id, actual: header.epoch_id });
                }
                if header.seq_no != self.next_seq_no {
                    return Err(ProtectionError::UnexpectedSeqNo { expected: self.next_seq_no, actual: header.seq_no });
                }
                Ok(self.current_root)
            },
        }
    }

    fn install_rekey(&mut self, plaintext: &[u8]) -> (r: Result<(), ProtectionError>)
        requires
            old(self)@.epoch.0 < u32::MAX,
        ensures
            (final(self)@, r) == install_spec(old(self)@, plaintext@),
    {
        if self.pending_rekey.is_some() {
            return Err(ProtectionError::RekeyAlreadyPending);
        }
        let payload = match RekeyPayload::decode(plaintext) {
            Ok(p) => p,
            Err(e) => return Err(e),
        };
        if payload.next_epoch_id.0 != self.current_epoch_id.0 + 1 {
            return Err(ProtectionError::InvalidNextEpoch { current: self.current_epoch_id, next: payload.next_epoch_id });
        }
        let next_root = derive_rekey_root(
            self.direction,
            &self.current_root,
            self.current_epoch_id,
            payload.next_epoch_id,
            &payload.rekey_seed,
        );
        self.pending_rekey = Some(PendingRekey { next_epoch_id: payload.next_epoch_id, next_root });
        self.stream_state = StreamState::RekeyPending { next_epoch_id: payload.next_epoch_id };
        Ok(())
    }

    fn finish_success(&mut self, header: &RecordHeader, plaintext: &[u8], next_root: [u8; 32]) -> (r: Result<(), ProtectionError>)
        requires
            counters_ok(old(self)@),
            header.seq_no.0 < u64::MAX,
        ensures
            (final(self)@, r) == finish_spec(old(self)@, *header, plaintext@, next_root@),
    {
        match self.pending_rekey {
            Some(pending) => {
                self.pending_rekey = None;
                self.current_epoch_id = pending.next_epoch_id;
                self.current_root = next_root;
                self.next_seq_no = SeqNo(header.seq_no.0 + 1);
                self.stream_state = StreamState::Established;
            },
            None => {
                self.current_root = next_root;
                self.next_seq_no = SeqNo(header.seq_no.0 + 1);
                match self.stream_state {
                    StreamState::Closed => {},
                    _ => {
                        self.stream_state = StreamState::Established;
                    },
                }
            },
        }
        match header.record_type {
            RecordType::Rekey => self.install_rekey(plaintext),
            RecordType::Close => {
                if !(plaintext.len() == 0 || plaintext.len() == CLOSE_CODE_LEN) {
                    return Err(ProtectionError::InvalidClosePayload { actual_len: plaintext.len() });
                }
                self.stream_state = StreamState::Closed;
                Ok(())
            },
            _ => Ok(()),
        }
    }

    fn fail(&mut self)
        ensures
            final(self)@ == failed(old(self)@),
    {
        self.pending_rekey = None;
        self.stream_state = StreamState::Closed;
    }

    /// Seals a record in turn: checks it against the stream, seals its
    /// payload under the keys of the active root, and advances the ratchet.
    pub fn protect_record(&mut self, record: Record) -> (r: Result<Record, ProtectionError>)
        requires
            counters_ok(old(self)@),
        ensures
            ({
                let o = protect_spec(old(self)@, record.header, record.payload@);
                &&& final(self)@ == o.0
                &&& match o.1 {
                    Ok(v) => r matches Ok(out) && record_view(out) == v,
                    Err(e) => r == Err::<Record, ProtectionError>(e),
                }
            }),
    {
        match self.stream_state {
            StreamState::Closed => {
                return Err(ProtectionError::StreamClosed);
            },
            _ => {},
        }
        let record = match record.validate() {
            Ok(r) => r,
            Err(e) => return Err(ProtectionError::Validation(e)),
        };
        let header = match self.prepare_record_for_epoch(record.header) {
            Ok(h) => h,
            Err(e) => return Err(e),
        };
        let active_root = match self.active_root_for(&header) {
            Ok(root) => root,
            Err(e) => return Err(e),
        };
        let (key, nonce, next_root) = derive_record_material(&active_root, header.epoch_id, header.seq_no);
        let aad = header.aad_bytes();
        let sealed = aead_seal(&key, &nonce, aad.as_slice(), record.payload.as_slice());
        let (ciphertext, auth_tag) = match sealed {
            Some(pair) => pair,
            None => return Err(ProtectionError::AuthenticationFailure),
        };
        match self.finish_success(&header, record.payload.as_slice(), next_root) {
            Ok(()) => {},
            Err(e) => return Err(e),
        }
        Ok(Record { header, payload: ciphertext, auth_tag })
    }

    /// Opens a record in turn: checks it against the stream, opens its
    /// payload under the keys of the active root, and advances the ratchet.
    /// Any failure after the stream check closes the stream.
    pub fn unprotect_record(&mut self, record: Record) -> (r: Result<Record, ProtectionError>)
        requires
            counters_ok(old(self)@),
        ensures
            match unprotect_root(old(self)@, record.header, record.payload@) {
                Err((s, e)) => final(self)@ == s && r == Err::<Record, ProtectionError>(e),
                Ok(root) => {
                    &&& (forall|p: Seq<u8>| #[trigger] seals(root, record.header, record.payload@, record.auth_tag@, p) ==> {
                        let o = opened_outcome(old(self)@, record.header, record.auth_tag@, root, p);
                        &&& final(self)@ == o.0
                        &&& match o.1 {
                            Ok(v) => r matches Ok(out) && record_view(out) == v,
                            Err(e) => r == Err::<Record, ProtectionError>(e),
                        }
                    })
                    &&& ((forall|p: Seq<u8>| !#[trigger] seals(root, record.header, record.payload@, record.auth_tag@, p)) ==> final(self)@ == failed(old(self)@)
                        && r == Err::<Record, ProtectionError>(ProtectionError::AuthenticationFailure))
                },
            },
    {
        match self.stream_state {
            StreamState::Closed => {
                return Err(ProtectionError::StreamClosed);
            },
            _ => {},
        }
        let record = match record.validate() {
            Ok(r) => r,
            Err(e) => {
                self.fail();
                return Err(ProtectionError::Validation(e));
            },
        };
        let active_root = match self.active_root_for(&record.header) {
            Ok(root) => root,
            Err(e) => {
                self.fail();
                return Err(e);
            },
        };
        let (key, nonce, next_root) = derive_record_material(&active_root, record.header.epoch_id, record.header.seq_no);
        let aad = record.header.aad_bytes();
        let opened = aead_open(&key, &nonce, aad.as_slice(), record.payload.as_slice(), &record.auth_tag);
        let plaintext = match opened {
            Some(p) => p,
            None => {
                self.fail();
                return Err(ProtectionError::AuthenticationFailure);
            },
        };
        proof {
            assert(seals(active_root@, record.header, record.payload@, record.auth_tag@, plaintext@));
        }
        match self.finish_success(&record.header, plaintext.as_slice(), next_root) {
            Ok(()) => {},
            Err(e) => {
                self.fail();
                return Err(e);
            },
        }
        Ok(Record { header: record.header, payload: plaintext, auth_tag: record.auth_tag })
    }
}

/// A record sealed by one protector opens, on a protector in the same state,
/// to the record that was sealed, and both protectors end in the same state.
/// (When a rekey is pending, sealing sets the rekey-confirm flag; the law
/// holds where the header with that flag still validates.)
pub proof fn lemma_protect_unprotect_roundtrip(s: ProtectorView, h: RecordHeader, payload: Seq<u8>)
    requires
        protect_spec(s, h, payload).1 is Ok,
        record_check(protect_spec(s, h, payload).1->Ok_0.0, protect_spec(s, h, payload).1->Ok_0.1) is Ok,
    ensures
        ({
            let sealed = protect_spec(s, h, payload).1->Ok_0;
            &&& unprotect_root(s, sealed.0, sealed.1) is Ok
            &&& seals(unprotect_root(s, sealed.0, sealed.1)->Ok_0, sealed.0, sealed.1, sealed.2, payload)
            &&& opened_outcome(s, sealed.0, sealed.2, unprotect_root(s, sealed.0, sealed.1)->Ok_0, payload)
                == (protect_spec(s, h, payload).0, Ok::<(RecordHeader, Seq<u8>, Seq<u8>), ProtectionError>(
                (sealed.0, payload, sealed.2),
            ))
        }),
{
    let h1 = prepare_spec(s, h)->Ok_0;
    let root = active_root_spec(s, h1)->Ok_0;
    assert(active_root_spec(s, h1) == Ok::<Seq<u8>, ProtectionError>(root));
}

// ---------------------------------------------------------------------------
// Epoch-zero roots from a key agreement
// ---------------------------------------------------------------------------

/// `pulzz-v1` as ASCII bytes.
pub open spec fn label_pulzz_v1() -> Seq<u8> {
    seq![0x70u8, 0x75, 0x6c, 0x7a, 0x7a, 0x2d, 0x76, 0x31]
}

/// `epoch0` as ASCII bytes.
pub open spec fn label_epoch0() -> Seq<u8> {
    seq![0x65u8, 0x70, 0x6f, 0x63, 0x68, 0x30]
}

/// The epoch-zero root of a stream: HKDF-SHA256 over the agreed secret,
/// salted with `pulzz-v1` and the stream id, with the direction's
/// `root/../epoch0` label as info.
pub open spec fn epoch0_root(d: StreamDirection, stream_id: StreamId, shared: Seq<u8>) -> Seq<u8> {
    hkdf_salted_32(label_pulzz_v1() + u64_le(stream_id.0), shared, root_label(d) + label_epoch0())
}

fn derive_epoch0_root(direction: StreamDirection, stream_id: StreamId, shared_secret: &[u8]) -> (root: [u8; 32])
    ensures
        root@ == epoch0_root(direction, stream_id, shared_secret@),
{
    let mut salt: Vec<u8> = Vec::new();
    salt.push(0x70);
    salt.push(0x75);
    salt.push(0x6c);
    salt.push(0x7a);
    salt.push(0x7a);
    salt.push(0x2d);
    salt.push(0x76);
    salt.push(0x31);
    push_u64_le(&mut salt, stream_id.0);
    assert(salt@ =~= label_pulzz_v1() + u64_le(stream_id.0));
    let mut info: Vec<u8> = Vec::new();
    push_root_label(&mut info, direction);
    let ghost head = info@;
    info.push(0x65);
    info.push(0x70);
    info.push(0x6f);
    info.push(0x63);
    info.push(0x68);
    info.push(0x30);
    assert(info@ =~= root_label(direction) + label_epoch0());
    let out = hkdf_salted_expand_32(salt.as_slice(), shared_secret, info.as_slice());
    to_array32(&out)
}

/// The X25519 public key of a secret.
pub uninterp spec fn x25519_public(secret: Seq<u8>) -> Seq<u8>;

/// The X25519 shared secret of a secret and a peer's public key.
pub uninterp spec fn x25519_shared(secret: Seq<u8>, public: Seq<u8>) -> Seq<u8>;

/// `x25519_dalek::PublicKey::from(&StaticSecret::from(secret))`: the public
/// key, a function of the secret bytes alone.
#[verifier::external_body]
fn x25519_public_key(secret: [u8; 32]) -> (public: [u8; 32])
    ensures
        public@ == x25519_public(secret@),
{
    x25519_dalek::PublicKey::from(&x25519_dalek::StaticSecret::from(secret)).to_bytes()
}

/// `StaticSecret::from(secret).diffie_hellman(&PublicKey::from(public))`:
/// the shared secret, a function of the two byte strings alone.
#[verifier::external_body]
fn x25519_diffie_hellman(secret: [u8; 32], public: [u8; 32]) -> (shared: [u8; 32])
    ensures
        shared@ == x25519_shared(secret@, public@),
{
    x25519_dalek::StaticSecret::from(secret).diffie_hellman(&x25519_dalek::PublicKey::from(public)).to_bytes()
}

/// A sender and a receiver for one stream under the classic profile, both
/// opened from the epoch-zero root of the client's X25519 agreement with the
/// server's public key.
pub fn classic_ref1_pair_from_static_secrets(
    stream_id: StreamId,
    direction: StreamDirection,
    client_secret_bytes: [u8; 32],
    server_secret_bytes: [u8; 32],
) -> (r: (StreamProtector, StreamProtector))
    ensures
        r.0@ == r.1@,
        r.0@ == (ProtectorView {
            kind: ProtectionProfileKind::ClassicRef1,
            stream_id,
            direction,
            state: StreamState::Opening,
            epoch: EpochId(0),
            next_seq: SeqNo(0),
            root: epoch0_root(direction, stream_id, x25519_shared(client_secret_bytes@, x25519_public(server_secret_bytes@))),
            pending: None,
        }),
{
    let server_public = x25519_public_key(server_secret_bytes);
    let shared = x25519_diffie_hellman(client_secret_bytes, server_public);
    let root = derive_epoch0_root(direction, stream_id, shared.as_slice());
    let sender = StreamProtector::from_bootstrap_root(ProtectionProfileKind::ClassicRef1, stream_id, direction, root);
    let receiver = StreamProtector::from_bootstrap_root(ProtectionProfileKind::ClassicRef1, stream_id, direction, root);
    (sender, receiver)
}


/// A profile that protects and unprotects records one at a time. Each impl
/// says, through the spec functions, when it can be called and what a call
/// does.
pub trait ProtectionProfile {
    /// The profile's kind.
    spec fn profile_kind(&self) -> ProtectionProfileKind;

    /// The state in which `protect` and `unprotect` may be called.
    spec fn ready(&self) -> bool;

    /// Protecting `record` from this state may leave `after` and answer `r`.
    spec fn protect_outcome(&self, record: Record, after: &Self, r: Result<Record, ProtectionError>) -> bool;

    /// Unprotecting `record` from this state may leave `after` and answer `r`.
    spec fn unprotect_outcome(&self, record: Record, after: &Self, r: Result<Record, ProtectionError>) -> bool;

    fn kind(&self) -> (k: ProtectionProfileKind)
        ensures
            k == self.profile_kind(),
    ;

    fn protect(&mut self, record: Record) -> (r: Result<Record, ProtectionError>)
        requires
            old(self).ready(),
        ensures
            old(self).protect_outcome(record, final(self), r),
    ;

    fn unprotect(&mut self, record: Record) -> (r: Result<Record, ProtectionError>)
        requires
            old(self).ready(),
        ensures
            old(self).unprotect_outcome(record, final(self), r),
    ;
}

impl ProtectionProfile for StreamProtector {
    open spec fn profile_kind(&self) -> ProtectionProfileKind {
        self@.kind
    }

    open spec fn ready(&self) -> bool {
        counters_ok(self@)
    }

    /// Exactly `protect_record`'s outcome.
    open spec fn protect_outcome(&self, record: Record, after: &Self, r: Result<Record, ProtectionError>) -> bool {
        let o = protect_spec(self@, record.header, record.payload@);
        &&& after@ == o.0
        &&& match o.1 {
            Ok(v) => r matches Ok(out) && record_view(out) == v,
            Err(e) => r == Err::<Record, ProtectionError>(e),
        }
    }

    /// Exactly `unprotect_record`'s outcome.
    open spec fn unprotect_outcome(&self, record: Record, after: &Self, r: Result<Record, ProtectionError>) -> bool {
        match unprotect_root(self@, record.header, record.payload@) {
            Err((s, e)) => after@ == s && r == Err::<Record, ProtectionError>(e),
            Ok(root) => {
                &&& (forall|p: Seq<u8>| #[trigger] seals(root, record.header, record.payload@, record.auth_tag@, p) ==> {
                    let o = opened_outcome(self@, record.header, record.auth_tag@, root, p);
                    &&& after@ == o.0
                    &&& match o.1 {
                        Ok(v) => r matches Ok(out) && record_view(out) == v,
                        Err(e) => r == Err::<Record, ProtectionError>(e),
                    }
                })
                &&& ((forall|p: Seq<u8>| !#[trigger] seals(root, record.header, record.payload@, record.auth_tag@, p)) ==> after@ == failed(self@)
                    && r == Err::<Record, ProtectionError>(ProtectionError::AuthenticationFailure))
            },
        }
    }

    fn kind(&self) -> (k: ProtectionProfileKind) {
        self.kind
    }

    fn protect(&mut self, record: Record) -> (r: Result<Record, ProtectionError>) {
        self.protect_record(record)
    }

    fn unprotect(&mut self, record: Record) -> (r: Result<Record, ProtectionError>) {
        self.unprotect_record(record)
    }
}

} // verus!
