//! Bootstrap bookkeeping: the session limits, what a client credential's
//! scope allows, and the cache that refuses a replayed handshake.

use vstd::prelude::*;
use crate::protection::{hkdf_salted_32, hkdf_salted_expand_32, ProtectionProfileKind, StreamDirection};
use crate::wire::{append_bytes, push_u64_le, u64_le};
use crate::protocol::StreamId;
use crate::num::sat_add_u64;
use crate::datagram::str_equal;
use crate::catalog::{sha256, sha256_digest};

verus! {

pub const BOOTSTRAP_NONCE_LEN: usize = 16;
pub const BOOTSTRAP_SIGNING_SEED_LEN: usize = 32;
pub const BOOTSTRAP_KEM_SEED_LEN: usize = 64;
pub const DEFAULT_HANDSHAKE_TIMEOUT_MS: u64 = 10000;
pub const DEFAULT_IDLE_READ_TIMEOUT_MS: u64 = 30000;
pub const DEFAULT_MAX_BOOTSTRAP_FRAME_BYTES: usize = 64 * 1024;
pub const DEFAULT_MAX_TRANSPORT_FRAME_BYTES: usize = 2 * 1024 * 1024;
pub const DEFAULT_CLOCK_SKEW_SECS: u64 = 120;
pub const DEFAULT_CLIENT_CREDENTIAL_LIFETIME_SECS: u64 = 15 * 60;

#[derive(Debug, Clone, Copy, PartialEq, Eq, Structural)]
pub enum BootstrapMessageKind {
    ClientHello,
    ServerHello,
    ClientFinish,
    ServerFinish,
    SimpleClientHello,
    SimpleServerHello,
}

#[derive(Debug, Clone, Copy, PartialEq, Eq, Structural)]
pub struct BootstrapConfig {
    pub handshake_timeout_ms: u64,
    pub idle_read_timeout_ms: u64,
    pub max_bootstrap_frame_bytes: usize,
    pub max_transport_frame_bytes: usize,
    pub clock_skew_secs: u64,
    pub default_client_credential_lifetime_secs: u64,
}

impl Default for BootstrapConfig {
    fn default() -> (c: Self)
        ensures
            c == (BootstrapConfig {
                handshake_timeout_ms: DEFAULT_HANDSHAKE_TIMEOUT_MS,
                idle_read_timeout_ms: DEFAULT_IDLE_READ_TIMEOUT_MS,
                max_bootstrap_frame_bytes: DEFAULT_MAX_BOOTSTRAP_FRAME_BYTES,
                max_transport_frame_bytes: DEFAULT_MAX_TRANSPORT_FRAME_BYTES,
                clock_skew_secs: DEFAULT_CLOCK_SKEW_SECS,
                default_client_credential_lifetime_secs: DEFAULT_CLIENT_CREDENTIAL_LIFETIME_SECS,
            }),
    {
        BootstrapConfig {
            handshake_timeout_ms: DEFAULT_HANDSHAKE_TIMEOUT_MS,
            idle_read_timeout_ms: DEFAULT_IDLE_READ_TIMEOUT_MS,
            max_bootstrap_frame_bytes: DEFAULT_MAX_BOOTSTRAP_FRAME_BYTES,
            max_transport_frame_bytes: DEFAULT_MAX_TRANSPORT_FRAME_BYTES,
            clock_skew_secs: DEFAULT_CLOCK_SKEW_SECS,
            default_client_credential_lifetime_secs: DEFAULT_CLIENT_CREDENTIAL_LIFETIME_SECS,
        }
    }
}

/// The streams and directions a client credential may be used on.
#[derive(Debug, Clone, Copy, PartialEq, Eq, Structural)]
pub struct CredentialScope {
    pub stream_id: Option<StreamId>,
    pub allow_client_to_server: bool,
    pub allow_server_to_client: bool,
}

impl CredentialScope {
    /// The scope allows the stream (any stream when it names none) in the
    /// direction.
    pub open spec fn allows_spec(&self, stream_id: StreamId, direction: StreamDirection) -> bool {
        &&& match self.stream_id {
            Some(s) => s == stream_id,
            None => true,
        }
        &&& match direction {
            StreamDirection::ClientToServer => self.allow_client_to_server,
            StreamDirection::ServerToClient => self.allow_server_to_client,
        }
    }

    pub fn allows(&self, stream_id: StreamId, direction: StreamDirection) -> (b: bool)
        ensures
            b == self.allows_spec(stream_id, direction),
    {
        match self.stream_id {
            Some(expected) => {
                if expected.0 != stream_id.0 {
                    return false;
                }
            },
            None => {},
        }
        match direction {
            StreamDirection::ClientToServer => self.allow_client_to_server,
            StreamDirection::ServerToClient => self.allow_server_to_client,
        }
    }
}

#[derive(Debug, Clone, PartialEq, Eq)]
pub struct ClientCredentialBundle {
    pub client_id: String,
    pub issuer_server_id: String,
    pub scope: CredentialScope,
    pub issued_at_unix_secs: u64,
    pub expires_at_unix_secs: u64,
    pub client_signing_public_key: Vec<u8>,
    pub issuer_signature: Vec<u8>,
}

#[derive(Debug, Clone, PartialEq, Eq)]
pub struct IssuedClientCredential {
    pub bundle: ClientCredentialBundle,
    pub client_signing_seed: [u8; 32],
}

#[derive(Debug, Clone, PartialEq, Eq)]
pub struct ServerIdentityBundle {
    pub server_id: String,
    pub issued_at_unix_secs: u64,
    pub expires_at_unix_secs: u64,
    pub server_signing_public_key: Vec<u8>,
    pub self_signature: Vec<u8>,
}

#[derive(Debug, Clone, PartialEq, Eq)]
pub enum ClientSecurityConfig {
    PqMutual { issued_credential: IssuedClientCredential, expected_server_identity: ServerIdentityBundle },
    PqSimple,
}

impl ClientSecurityConfig {
    /// Mutual credentials run the mutual profile, the simple setting the
    /// simple one.
    pub fn protection_profile(&self) -> (p: ProtectionProfileKind)
        ensures
            p == (match self {
                ClientSecurityConfig::PqMutual { .. } => ProtectionProfileKind::PqMutualV1,
                ClientSecurityConfig::PqSimple => ProtectionProfileKind::PqSimpleV1,
            }),
    {
        match self {
            ClientSecurityConfig::PqMutual { .. } => ProtectionProfileKind::PqMutualV1,
            ClientSecurityConfig::PqSimple => ProtectionProfileKind::PqSimpleV1,
        }
    }
}

#[derive(Debug, Clone, PartialEq, Eq)]
pub struct PqSimpleServerBootstrapConfig {
    pub server_id: String,
}

impl Default for PqSimpleServerBootstrapConfig {
    fn default() -> (c: Self)
        ensures
            c.server_id@ == "pq_simple_v1_server"@,
    {
        PqSimpleServerBootstrapConfig { server_id: String::from_str("pq_simple_v1_server") }
    }
}

#[derive(Debug, Clone, PartialEq, Eq)]
pub enum ServerSecurityConfig {
    PqMutual { server_identity: ServerIdentityBundle, server_signing_seed: [u8; 32], revoked_client_ids: Vec<String> },
    PqSimple { bootstrap: PqSimpleServerBootstrapConfig },
}

impl ServerSecurityConfig {
    /// A server identity runs the mutual profile, the simple setting the
    /// simple one.
    pub fn protection_profile(&self) -> (p: ProtectionProfileKind)
        ensures
            p == (match self {
                ServerSecurityConfig::PqMutual { .. } => ProtectionProfileKind::PqMutualV1,
                ServerSecurityConfig::PqSimple { .. } => ProtectionProfileKind::PqSimpleV1,
            }),
    {
        match self {
            ServerSecurityConfig::PqMutual { .. } => ProtectionProfileKind::PqMutualV1,
            ServerSecurityConfig::PqSimple { .. } => ProtectionProfileKind::PqSimpleV1,
        }
    }
}

#[derive(Debug, Clone, PartialEq, Eq)]
pub struct BootstrapClientConfig {
    pub stream_id: StreamId,
    pub direction: StreamDirection,
    pub bootstrap: BootstrapConfig,
    pub security: ClientSecurityConfig,
}

impl BootstrapClientConfig {
    pub fn protection_profile(&self) -> (p: ProtectionProfileKind)
        ensures
            p == (match self.security {
                ClientSecurityConfig::PqMutual { .. } => ProtectionProfileKind::PqMutualV1,
                ClientSecurityConfig::PqSimple => ProtectionProfileKind::PqSimpleV1,
            }),
    {
        self.security.protection_profile()
    }
}

#[derive(Debug, Clone, PartialEq, Eq)]
pub struct BootstrapServerConfig {
    pub stream_id: StreamId,
    pub direction: StreamDirection,
    pub bootstrap: BootstrapConfig,
    pub security: ServerSecurityConfig,
}

impl BootstrapServerConfig {
    pub fn protection_profile(&self) -> (p: ProtectionProfileKind)
        ensures
            p == (match self.security {
                ServerSecurityConfig::PqMutual { .. } => ProtectionProfileKind::PqMutualV1,
                ServerSecurityConfig::PqSimple { .. } => ProtectionProfileKind::PqSimpleV1,
            }),
    {
        self.security.protection_profile()
    }
}

/// Limits a session runs under.
#[derive(Debug, Clone, Copy, PartialEq, Eq, Structural)]
pub struct SessionRuntimeLimits {
    pub handshake_timeout_ms: u64,
    pub idle_read_timeout_ms: u64,
    pub max_bootstrap_frame_bytes: usize,
    pub max_transport_frame_bytes: usize,
}

impl Default for SessionRuntimeLimits {
    fn default() -> (l: Self)
        ensures
            l == (SessionRuntimeLimits {
                handshake_timeout_ms: DEFAULT_HANDSHAKE_TIMEOUT_MS,
                idle_read_timeout_ms: DEFAULT_IDLE_READ_TIMEOUT_MS,
                max_bootstrap_frame_bytes: DEFAULT_MAX_BOOTSTRAP_FRAME_BYTES,
                max_transport_frame_bytes: DEFAULT_MAX_TRANSPORT_FRAME_BYTES,
            }),
    {
        SessionRuntimeLimits {
            handshake_timeout_ms: DEFAULT_HANDSHAKE_TIMEOUT_MS,
            idle_read_timeout_ms: DEFAULT_IDLE_READ_TIMEOUT_MS,
            max_bootstrap_frame_bytes: DEFAULT_MAX_BOOTSTRAP_FRAME_BYTES,
            max_transport_frame_bytes: DEFAULT_MAX_TRANSPORT_FRAME_BYTES,
        }
    }
}

#[derive(Debug, Clone, PartialEq, Eq)]
pub enum BootstrapError {
    InvalidFrameMagic,
    FrameTooLarge { kind: BootstrapMessageKind, actual_len: usize, max_len: usize },
    UnexpectedMessageKind { expected: BootstrapMessageKind, actual: BootstrapMessageKind },
    UnexpectedStreamId { expected: StreamId, actual: StreamId },
    UnsupportedProtectionProfile(ProtectionProfileKind),
    UnexpectedServerIdentity,
    InvalidServerIdentityValidity,
    InvalidClientCredentialValidity,
    CredentialScopeRejected { stream_id: StreamId, direction: StreamDirection },
    CredentialIssuerMismatch,
    ClientIdMismatch,
    ServerIdMismatch,
    InvalidClientCredentialSignature,
    InvalidServerIdentitySignature,
    InvalidClientTranscriptSignature,
    InvalidServerTranscriptSignature,
    RevokedClientCredential,
    ReplayDetected,
    InvalidKemPublicKey,
    InvalidKemCiphertext,
    InvalidSigningPublicKey,
    InvalidSignatureEncoding,
}

/// What identifies a handshake: the client and both nonces.
#[derive(Debug, Clone, PartialEq, Eq)]
pub struct ReplayCacheKey {
    pub client_id: String,
    pub client_nonce: [u8; 16],
    pub server_nonce: [u8; 16],
}

/// A key, as values.
pub open spec fn key_view(k: ReplayCacheKey) -> (Seq<char>, Seq<u8>, Seq<u8>) {
    (k.client_id@, k.client_nonce@, k.server_nonce@)
}

/// The handshakes seen, each with the time it may be forgotten.
#[derive(Debug, Clone)]
pub struct ReplayCache {
    entries: Vec<(ReplayCacheKey, u64)>,
}

/// The entries as values.
pub open spec fn entries_view(s: Seq<(ReplayCacheKey, u64)>) -> Seq<((Seq<char>, Seq<u8>, Seq<u8>), u64)> {
    s.map_values(|e: (ReplayCacheKey, u64)| (key_view(e.0), e.1))
}

/// No key occurs twice.
pub open spec fn keys_distinct(s: Seq<((Seq<char>, Seq<u8>, Seq<u8>), u64)>) -> bool {
    forall|i: int, j: int| 0 <= i < j < s.len() ==> (#[trigger] s[i]).0 != (#[trigger] s[j]).0
}

/// Whether some entry has key `k`.
pub open spec fn has_entry(s: Seq<((Seq<char>, Seq<u8>, Seq<u8>), u64)>, k: (Seq<char>, Seq<u8>, Seq<u8>)) -> bool {
    exists|i: int| 0 <= i < s.len() && (#[trigger] s[i]).0 == k
}

/// The entries that have not expired at `now`, in order.
pub open spec fn unexpired(s: Seq<((Seq<char>, Seq<u8>, Seq<u8>), u64)>, now: u64) -> Seq<((Seq<char>, Seq<u8>, Seq<u8>), u64)> {
    s.filter(|e: ((Seq<char>, Seq<u8>, Seq<u8>), u64)| e.1 >= now)
}

impl ReplayCache {
    /// The handshakes remembered, oldest first, with their expiry times.
    pub closed spec fn view_entries(&self) -> Seq<((Seq<char>, Seq<u8>, Seq<u8>), u64)> {
        entries_view(self.entries@)
    }

    pub closed spec fn wf(&self) -> bool {
        keys_distinct(entries_view(self.entries@))
    }

    pub fn new() -> (c: Self)
        ensures
            c.wf(),
            c.view_entries().len() == 0,
    {
        ReplayCache { entries: Vec::new() }
    }

    /// Forgets the handshakes that expired before `now_unix_secs`.
    pub fn prune_expired(&mut self, now_unix_secs: u64)
        requires
            old(self).wf(),
        ensures
            final(self).wf(),
            final(self).view_entries() == unexpired(old(self).view_entries(), now_unix_secs),
    {
        let ghost src = entries_view(self.entries@);
        let mut rest: Vec<(ReplayCacheKey, u64)> = Vec::new();
        std::mem::swap(&mut rest, &mut self.entries);
        let mut kept: Vec<(ReplayCacheKey, u64)> = Vec::new();
        let ghost mut done: int = 0;
        while rest.len() > 0
            invariant
                0 <= done <= src.len(),
                keys_distinct(src),
                entries_view(rest@) == src.skip(done),
                entries_view(kept@) == unexpired(src.take(done), now_unix_secs),
            decreases rest@.len(),
        {
            let ghost rv = rest@;
            let e = rest.remove(0);
            proof {
                assert(rv.len() > 0);
                assert(entries_view(rv).len() == rv.len());
                assert(entries_view(rv)[0] == src.skip(done)[0]);
                assert(src.take(done + 1).drop_last() =~= src.take(done));
                reveal(Seq::filter);
                assert(entries_view(rest@) =~= entries_view(rv).drop_first());
                assert(src.skip(done).drop_first() =~= src.skip(done + 1));
            }
            if e.1 >= now_unix_secs {
                let ghost kv = entries_view(kept@);
                let ghost ev = (key_view(e.0), e.1);
                kept.push(e);
                assert(entries_view(kept@) =~= kv.push(ev));
            }
            proof {
                done = done + 1;
            }
        }
        assert(src.take(done) =~= src);
        proof {
            lemma_unexpired_distinct(src, now_unix_secs);
        }
        self.entries = kept;
    }

    /// Refuses a handshake seen before and not yet expired; otherwise
    /// remembers it until `expires_at_unix_secs`. Expired handshakes are
    /// forgotten first.
    pub fn check_and_insert(&mut self, key: ReplayCacheKey, expires_at_unix_secs: u64, now_unix_secs: u64) -> (r: Result<(), BootstrapError>)
        requires
            old(self).wf(),
        ensures
            final(self).wf(),
            has_entry(unexpired(old(self).view_entries(), now_unix_secs), key_view(key)) ==> r == Err::<(), BootstrapError>(BootstrapError::ReplayDetected)
                && final(self).view_entries() == unexpired(old(self).view_entries(), now_unix_secs),
            !has_entry(unexpired(old(self).view_entries(), now_unix_secs), key_view(key)) ==> r is Ok
                && final(self).view_entries() == unexpired(old(self).view_entries(), now_unix_secs).push((key_view(key), expires_at_unix_secs)),
    {
        self.prune_expired(now_unix_secs);
        let ghost s = entries_view(self.entries@);
        let mut i: usize = 0;
        while i < self.entries.len()
            invariant
                i <= self.entries@.len(),
                s == entries_view(self.entries@),
                self.wf(),
                s == unexpired(old(self).view_entries(), now_unix_secs),
                forall|j: int| 0 <= j < i ==> (#[trigger] s[j]).0 != key_view(key),
            decreases self.entries@.len() - i,
        {
            if keys_equal(&self.entries[i].0, &key) {
                assert(s[i as int].0 == key_view(key));
                assert(has_entry(s, key_view(key)));
                return Err(BootstrapError::ReplayDetected);
            }
            i = i + 1;
        }
        let ghost kv = key_view(key);
        assert(!has_entry(s, kv));
        self.entries.push((key, expires_at_unix_secs));
        proof {
            assert(entries_view(self.entries@) =~= s.push((kv, expires_at_unix_secs)));
            let t = entries_view(self.entries@);
            assert forall|a: int, b: int| 0 <= a < b < t.len() implies (#[trigger] t[a]).0 != (#[trigger] t[b]).0 by {
                if b == s.len() {
                    assert(t[a] == s[a]);
                } else {
                    assert(t[a] == s[a] && t[b] == s[b]);
                }
            }
        }
        Ok(())
    }
}

impl Default for ReplayCache {
    fn default() -> (c: Self)
        ensures
            c.wf(),
            c.view_entries().len() == 0,
    {
        ReplayCache::new()
    }
}

/// Keeping the unexpired entries keeps the keys distinct.
proof fn lemma_unexpired_distinct(s: Seq<((Seq<char>, Seq<u8>, Seq<u8>), u64)>, now: u64)
    requires
        keys_distinct(s),
    ensures
        keys_distinct(unexpired(s, now)),
    decreases s.len(),
{
    reveal(Seq::filter);
    if s.len() > 0 {
        let d = s.drop_last();
        assert forall|i: int, j: int| 0 <= i < j < d.len() implies (#[trigger] d[i]).0 != (#[trigger] d[j]).0 by {
            assert(d[i] == s[i] && d[j] == s[j]);
        }
        lemma_unexpired_distinct(d, now);
        let t = unexpired(d, now);
        if s.last().1 >= now {
            let u = t.push(s.last());
            assert(unexpired(s, now) == u);
            assert forall|i: int| 0 <= i < t.len() implies (#[trigger] t[i]).0 != s.last().0 by {
                lemma_filter_member(d, now, i);
            }
            assert forall|i: int, j: int| 0 <= i < j < u.len() implies (#[trigger] u[i]).0 != (#[trigger] u[j]).0 by {
                if j == t.len() {
                    assert(u[i] == t[i]);
                } else {
                    assert(u[i] == t[i] && u[j] == t[j]);
                }
            }
        }
    }
}

/// An entry kept is an entry of the original.
proof fn lemma_filter_member(s: Seq<((Seq<char>, Seq<u8>, Seq<u8>), u64)>, now: u64, i: int)
    requires
        0 <= i < unexpired(s, now).len(),
    ensures
        exists|j: int| 0 <= j < s.len() && s[j] == unexpired(s, now)[i],
    decreases s.len(),
{
    reveal(Seq::filter);
    if s.len() > 0 {
        let d = s.drop_last();
        let t = unexpired(d, now);
        if i < t.len() {
            lemma_filter_member(d, now, i);
            let j = choose|j: int| 0 <= j < d.len() && d[j] == t[i];
            assert(s[j] == d[j]);
        } else {
            assert(unexpired(s, now)[i] == s.last());
            assert(s[s.len() - 1] == s.last());
        }
    }
}

fn arrays_equal(a: &[u8; 16], b: &[u8; 16]) -> (r: bool)
    ensures
        r == (a@ == b@),
{
    let mut i: usize = 0;
    while i < 16
        invariant
            i <= 16,
            a@.len() == 16,
            b@.len() == 16,
            forall|j: int| 0 <= j < i ==> a@[j] == b@[j],
        decreases 16 - i,
    {
        if a[i] != b[i] {
            return false;
        }
        i = i + 1;
    }
    assert(a@ =~= b@);
    true
}

fn keys_equal(a: &ReplayCacheKey, b: &ReplayCacheKey) -> (r: bool)
    ensures
        r == (key_view(*a) == key_view(*b)),
{
    a.client_id == b.client_id && arrays_equal(&a.client_nonce, &b.client_nonce)
        && arrays_equal(&a.server_nonce, &b.server_nonce)
}

/// "pq_mutual_v1/root"
const LABEL_MUTUAL_ROOT: [u8; 17] = [0x70u8, 0x71u8, 0x5fu8, 0x6du8, 0x75u8, 0x74u8, 0x75u8, 0x61u8, 0x6cu8, 0x5fu8, 0x76u8, 0x31u8, 0x2fu8, 0x72u8, 0x6fu8, 0x6fu8, 0x74u8];

/// "pq_mutual_v1/root/c2s"
const LABEL_MUTUAL_C2S: [u8; 21] = [0x70u8, 0x71u8, 0x5fu8, 0x6du8, 0x75u8, 0x74u8, 0x75u8, 0x61u8, 0x6cu8, 0x5fu8, 0x76u8, 0x31u8, 0x2fu8, 0x72u8, 0x6fu8, 0x6fu8, 0x74u8, 0x2fu8, 0x63u8, 0x32u8, 0x73u8];

/// "pq_mutual_v1/root/s2c"
const LABEL_MUTUAL_S2C: [u8; 21] = [0x70u8, 0x71u8, 0x5fu8, 0x6du8, 0x75u8, 0x74u8, 0x75u8, 0x61u8, 0x6cu8, 0x5fu8, 0x76u8, 0x31u8, 0x2fu8, 0x72u8, 0x6fu8, 0x6fu8, 0x74u8, 0x2fu8, 0x73u8, 0x32u8, 0x63u8];

/// "pq_simple_v1/root"
const LABEL_SIMPLE_ROOT: [u8; 17] = [0x70u8, 0x71u8, 0x5fu8, 0x73u8, 0x69u8, 0x6du8, 0x70u8, 0x6cu8, 0x65u8, 0x5fu8, 0x76u8, 0x31u8, 0x2fu8, 0x72u8, 0x6fu8, 0x6fu8, 0x74u8];

/// "pq_simple_v1/root/c2s"
const LABEL_SIMPLE_C2S: [u8; 21] = [0x70u8, 0x71u8, 0x5fu8, 0x73u8, 0x69u8, 0x6du8, 0x70u8, 0x6cu8, 0x65u8, 0x5fu8, 0x76u8, 0x31u8, 0x2fu8, 0x72u8, 0x6fu8, 0x6fu8, 0x74u8, 0x2fu8, 0x63u8, 0x32u8, 0x73u8];

/// "pq_simple_v1/root/s2c"
const LABEL_SIMPLE_S2C: [u8; 21] = [0x70u8, 0x71u8, 0x5fu8, 0x73u8, 0x69u8, 0x6du8, 0x70u8, 0x6cu8, 0x65u8, 0x5fu8, 0x76u8, 0x31u8, 0x2fu8, 0x72u8, 0x6fu8, 0x6fu8, 0x74u8, 0x2fu8, 0x73u8, 0x32u8, 0x63u8];


// Root derivation for the post-quantum profiles.

/// The bytes of "pq_mutual_v1/root".
pub open spec fn pq_mutual_root_label() -> Seq<u8> {
    seq![0x70u8, 0x71u8, 0x5fu8, 0x6du8, 0x75u8, 0x74u8, 0x75u8, 0x61u8, 0x6cu8, 0x5fu8, 0x76u8, 0x31u8, 0x2fu8, 0x72u8, 0x6fu8, 0x6fu8, 0x74u8]
}

/// The bytes of "pq_mutual_v1/root/c2s".
pub open spec fn pq_mutual_c2s_label() -> Seq<u8> {
    seq![0x70u8, 0x71u8, 0x5fu8, 0x6du8, 0x75u8, 0x74u8, 0x75u8, 0x61u8, 0x6cu8, 0x5fu8, 0x76u8, 0x31u8, 0x2fu8, 0x72u8, 0x6fu8, 0x6fu8, 0x74u8, 0x2fu8, 0x63u8, 0x32u8, 0x73u8]
}

/// The bytes of "pq_mutual_v1/root/s2c".
pub open spec fn pq_mutual_s2c_label() -> Seq<u8> {
    seq![0x70u8, 0x71u8, 0x5fu8, 0x6du8, 0x75u8, 0x74u8, 0x75u8, 0x61u8, 0x6cu8, 0x5fu8, 0x76u8, 0x31u8, 0x2fu8, 0x72u8, 0x6fu8, 0x6fu8, 0x74u8, 0x2fu8, 0x73u8, 0x32u8, 0x63u8]
}

/// The bytes of "pq_simple_v1/root".
pub open spec fn pq_simple_root_label() -> Seq<u8> {
    seq![0x70u8, 0x71u8, 0x5fu8, 0x73u8, 0x69u8, 0x6du8, 0x70u8, 0x6cu8, 0x65u8, 0x5fu8, 0x76u8, 0x31u8, 0x2fu8, 0x72u8, 0x6fu8, 0x6fu8, 0x74u8]
}

/// The bytes of "pq_simple_v1/root/c2s".
pub open spec fn pq_simple_c2s_label() -> Seq<u8> {
    seq![0x70u8, 0x71u8, 0x5fu8, 0x73u8, 0x69u8, 0x6du8, 0x70u8, 0x6cu8, 0x65u8, 0x5fu8, 0x76u8, 0x31u8, 0x2fu8, 0x72u8, 0x6fu8, 0x6fu8, 0x74u8, 0x2fu8, 0x63u8, 0x32u8, 0x73u8]
}

/// The bytes of "pq_simple_v1/root/s2c".
pub open spec fn pq_simple_s2c_label() -> Seq<u8> {
    seq![0x70u8, 0x71u8, 0x5fu8, 0x73u8, 0x69u8, 0x6du8, 0x70u8, 0x6cu8, 0x65u8, 0x5fu8, 0x76u8, 0x31u8, 0x2fu8, 0x72u8, 0x6fu8, 0x6fu8, 0x74u8, 0x2fu8, 0x73u8, 0x32u8, 0x63u8]
}

/// The HKDF info that names the root of a direction of the mutual profile.
pub open spec fn pq_mutual_direction_label(d: StreamDirection) -> Seq<u8> {
    match d {
        StreamDirection::ClientToServer => pq_mutual_c2s_label(),
        StreamDirection::ServerToClient => pq_mutual_s2c_label(),
    }
}

/// The HKDF info that names the root of a direction of the simple profile.
pub open spec fn pq_simple_direction_label(d: StreamDirection) -> Seq<u8> {
    match d {
        StreamDirection::ClientToServer => pq_simple_c2s_label(),
        StreamDirection::ServerToClient => pq_simple_s2c_label(),
    }
}

fn copy_array32(v: &Vec<u8>) -> (a: [u8; 32])
    requires
        v@.len() == 32,
    ensures
        a@ == v@,
{
    let mut a = [0u8; 32];
    let mut i: usize = 0;
    while i < 32
        invariant
            i <= 32,
            v@.len() == 32,
            forall|j: int| 0 <= j < i ==> a@[j] == v@[j],
        decreases 32 - i,
    {
        a.set(i, v[i]);
        i = i + 1;
    }
    assert(a@ =~= v@);
    a
}

/// The root of a direction of the mutual profile: HKDF-SHA256 with the
/// salt "pq_mutual_v1/root", the stream id (little-endian) and the
/// transcript hash, over both shared secrets and the transcript hash,
/// expanded to 32 bytes for the direction's label.
pub fn derive_pq_mutual_root(
    stream_id: StreamId,
    direction: StreamDirection,
    server_to_client_shared_secret: &[u8; 32],
    client_to_server_shared_secret: &[u8; 32],
    transcript_hash: &[u8; 32],
) -> (root: [u8; 32])
    ensures
        root@ == hkdf_salted_32(
            pq_mutual_root_label() + u64_le(stream_id.0) + transcript_hash@,
            server_to_client_shared_secret@ + client_to_server_shared_secret@ + transcript_hash@,
            pq_mutual_direction_label(direction),
        ),
{
    let mut salt: Vec<u8> = Vec::new();
    let label: [u8; 17] = LABEL_MUTUAL_ROOT;
    append_bytes(&mut salt, &label);
    push_u64_le(&mut salt, stream_id.0);
    append_bytes(&mut salt, transcript_hash);
    assert(label@ =~= pq_mutual_root_label());
    assert(salt@ =~= pq_mutual_root_label() + u64_le(stream_id.0) + transcript_hash@);
    let mut ikm: Vec<u8> = Vec::new();
    append_bytes(&mut ikm, server_to_client_shared_secret);
    append_bytes(&mut ikm, client_to_server_shared_secret);
    append_bytes(&mut ikm, transcript_hash);
    let info: [u8; 21] = match direction {
        StreamDirection::ClientToServer => LABEL_MUTUAL_C2S,
        StreamDirection::ServerToClient => LABEL_MUTUAL_S2C,
    };
    assert(info@ =~= pq_mutual_direction_label(direction));
    let out = hkdf_salted_expand_32(salt.as_slice(), ikm.as_slice(), &info);
    copy_array32(&out)
}

/// The root of a direction of the simple profile: HKDF-SHA256 with the salt
/// "pq_simple_v1/root", the stream id (little-endian) and the transcript
/// hash, over the shared secret and the transcript hash, expanded to 32 bytes
/// for the direction's label.
pub fn derive_pq_simple_root(
    stream_id: StreamId,
    direction: StreamDirection,
    shared_secret: &[u8; 32],
    transcript_hash: &[u8; 32],
) -> (root: [u8; 32])
    ensures
        root@ == hkdf_salted_32(
            pq_simple_root_label() + u64_le(stream_id.0) + transcript_hash@,
            shared_secret@ + transcript_hash@,
            pq_simple_direction_label(direction),
        ),
{
    let mut salt: Vec<u8> = Vec::new();
    let label: [u8; 17] = LABEL_SIMPLE_ROOT;
    append_bytes(&mut salt, &label);
    push_u64_le(&mut salt, stream_id.0);
    append_bytes(&mut salt, transcript_hash);
    assert(label@ =~= pq_simple_root_label());
    assert(salt@ =~= pq_simple_root_label() + u64_le(stream_id.0) + transcript_hash@);
    let mut ikm: Vec<u8> = Vec::new();
    append_bytes(&mut ikm, shared_secret);
    append_bytes(&mut ikm, transcript_hash);
    let info: [u8; 21] = match direction {
        StreamDirection::ClientToServer => LABEL_SIMPLE_C2S,
        StreamDirection::ServerToClient => LABEL_SIMPLE_S2C,
    };
    assert(info@ =~= pq_simple_direction_label(direction));
    let out = hkdf_salted_expand_32(salt.as_slice(), ikm.as_slice(), &info);
    copy_array32(&out)
}


// Credential and identity validation (ML-DSA-65 signatures).

/// Length of an encoded ML-DSA-65 public key.
pub const MLDSA65_PUBLIC_KEY_LEN: usize = 1952;

/// Length of an encoded ML-DSA-65 signature.
pub const MLDSA65_SIGNATURE_LEN: usize = 3309;

/// Whether the bytes decode as an ML-DSA-65 signature (right length, a
/// well-formed hint and a response within its bound).
pub uninterp spec fn mldsa65_signature_decodes(bytes: Seq<u8>) -> bool;

/// Whether ML-DSA-65 verification accepts the signature over the message
/// under the encoded public key (empty context).
pub uninterp spec fn mldsa65_accepts(public_key: Seq<u8>, message: Seq<u8>, signature: Seq<u8>) -> bool;

/// `ml_dsa::EncodedVerifyingKey::<MlDsa65>::try_from` on the bytes: the
/// array conversion of hybrid-array accepts exactly a slice of the key's
/// size, 1952 bytes.
#[verifier::external_body]
fn mldsa65_public_key_fits(bytes: &[u8]) -> (r: bool)
    ensures
        r == (bytes@.len() == MLDSA65_PUBLIC_KEY_LEN),
{
    ml_dsa::EncodedVerifyingKey::<ml_dsa::MlDsa65>::try_from(bytes).is_ok()
}

/// `ml_dsa::Signature::<MlDsa65>::try_from` on the bytes: whether they
/// decode as a signature, which needs 3309 bytes.
#[verifier::external_body]
fn mldsa65_signature_from_bytes(bytes: &[u8]) -> (r: bool)
    ensures
        r == mldsa65_signature_decodes(bytes@),
        r ==> bytes@.len() == MLDSA65_SIGNATURE_LEN,
{
    ml_dsa::Signature::<ml_dsa::MlDsa65>::try_from(bytes).is_ok()
}

/// `signature::Verifier::verify` of `ml_dsa::VerifyingKey::<MlDsa65>`, with
/// the key decoded from its 1952 bytes and the signature from its bytes:
/// whether the signature over the message verifies, a function of the three.
#[verifier::external_body]
fn mldsa65_verify(public_key: &[u8], message: &[u8], signature: &[u8]) -> (r: bool)
    requires
        public_key@.len() == MLDSA65_PUBLIC_KEY_LEN,
        mldsa65_signature_decodes(signature@),
    ensures
        r == mldsa65_accepts(public_key@, message@, signature@),
{
    let encoded = ml_dsa::EncodedVerifyingKey::<ml_dsa::MlDsa65>::try_from(public_key).unwrap();
    let key = ml_dsa::VerifyingKey::<ml_dsa::MlDsa65>::decode(&encoded);
    let sig = ml_dsa::Signature::<ml_dsa::MlDsa65>::try_from(signature).unwrap();
    ml_dsa::signature::Verifier::verify(&key, message, &sig).is_ok()
}

/// The encoded ML-DSA-65 public key of the key pair a seed determines.
pub uninterp spec fn mldsa65_public_key_of(seed: Seq<u8>) -> Seq<u8>;

/// The encoded deterministic ML-DSA-65 signature (empty context) of a
/// message under the key pair a seed determines.
pub uninterp spec fn mldsa65_signature_of(seed: Seq<u8>, message: Seq<u8>) -> Seq<u8>;

/// `ml_dsa::SigningKey::<MlDsa65>::from_seed`, then `verifying_key()` and
/// `encode()`: key generation from the seed is deterministic (FIPS 204
/// `KeyGen_internal`) and the encoded key has 1952 bytes.
#[verifier::external_body]
fn mldsa65_public_key(seed: [u8; 32]) -> (r: Vec<u8>)
    ensures
        r@ == mldsa65_public_key_of(seed@),
        r@.len() == MLDSA65_PUBLIC_KEY_LEN,
{
    let key = ml_dsa::SigningKey::<ml_dsa::MlDsa65>::from_seed(&seed.into());
    ml_dsa::signature::Keypair::verifying_key(&key).encode().to_vec()
}

/// `ml_dsa::SigningKey::<MlDsa65>::from_seed`, then `signature::Signer::sign`
/// and `encode()`: the crate signs deterministically with an empty context,
/// so the signature is a function of the seed and message; it decodes, and
/// the seed's public key verifies it (the crate's documented sign/verify
/// round trip).
#[verifier::external_body]
fn mldsa65_sign(seed: [u8; 32], message: &[u8]) -> (r: Vec<u8>)
    ensures
        r@ == mldsa65_signature_of(seed@, message@),
        r@.len() == MLDSA65_SIGNATURE_LEN,
        mldsa65_signature_decodes(r@),
        mldsa65_accepts(mldsa65_public_key_of(seed@), message@, r@),
{
    let key = ml_dsa::SigningKey::<ml_dsa::MlDsa65>::from_seed(&seed.into());
    let sig: ml_dsa::Signature<ml_dsa::MlDsa65> = ml_dsa::signature::Signer::sign(&key, message);
    sig.encode().to_vec()
}

/// A server identity before its self-signature: the id, the validity window
/// and the public key of the signing seed; the signature is empty.
pub fn unsigned_server_identity(
    server_id: String,
    issued_at_unix_secs: u64,
    expires_at_unix_secs: u64,
    server_signing_seed: [u8; 32],
) -> (b: ServerIdentityBundle)
    ensures
        b.server_id@ == server_id@,
        b.issued_at_unix_secs == issued_at_unix_secs,
        b.expires_at_unix_secs == expires_at_unix_secs,
        b.server_signing_public_key@ == mldsa65_public_key_of(server_signing_seed@),
        b.self_signature@.len() == 0,
{
    ServerIdentityBundle {
        server_id,
        issued_at_unix_secs,
        expires_at_unix_secs,
        server_signing_public_key: mldsa65_public_key(server_signing_seed),
        self_signature: Vec::new(),
    }
}

/// Issues a server identity: the unsigned identity with the seed's
/// signature over `signable` (its signed fields, encoded by the caller).
pub fn issue_server_identity(
    unsigned: ServerIdentityBundle,
    server_signing_seed: [u8; 32],
    signable: &[u8],
) -> (b: ServerIdentityBundle)
    ensures
        b.server_id@ == unsigned.server_id@,
        b.issued_at_unix_secs == unsigned.issued_at_unix_secs,
        b.expires_at_unix_secs == unsigned.expires_at_unix_secs,
        b.server_signing_public_key@ == unsigned.server_signing_public_key@,
        b.self_signature@ == mldsa65_signature_of(server_signing_seed@, signable@),
{
    let mut b = unsigned;
    b.self_signature = mldsa65_sign(server_signing_seed, signable);
    b
}

/// A client credential before the issuer's signature: the client id, the
/// issuer's id, the scope, the validity window and the public key of the
/// client's signing seed; the signature is empty.
pub fn unsigned_client_credential(
    server_identity: &ServerIdentityBundle,
    client_id: String,
    client_signing_seed: [u8; 32],
    scope: CredentialScope,
    issued_at_unix_secs: u64,
    expires_at_unix_secs: u64,
) -> (b: ClientCredentialBundle)
    ensures
        b.client_id@ == client_id@,
        b.issuer_server_id@ == server_identity.server_id@,
        b.scope == scope,
        b.issued_at_unix_secs == issued_at_unix_secs,
        b.expires_at_unix_secs == expires_at_unix_secs,
        b.client_signing_public_key@ == mldsa65_public_key_of(client_signing_seed@),
        b.issuer_signature@.len() == 0,
{
    ClientCredentialBundle {
        client_id,
        issuer_server_id: server_identity.server_id.clone(),
        scope,
        issued_at_unix_secs,
        expires_at_unix_secs,
        client_signing_public_key: mldsa65_public_key(client_signing_seed),
        issuer_signature: Vec::new(),
    }
}

/// Issues a client credential: the unsigned credential with the server
/// seed's signature over `signable` (its signed fields, encoded by the
/// caller), kept with the client's signing seed.
pub fn issue_client_credential(
    unsigned: ClientCredentialBundle,
    server_signing_seed: [u8; 32],
    client_signing_seed: [u8; 32],
    signable: &[u8],
) -> (c: IssuedClientCredential)
    ensures
        c.bundle.client_id@ == unsigned.client_id@,
        c.bundle.issuer_server_id@ == unsigned.issuer_server_id@,
        c.bundle.scope == unsigned.scope,
        c.bundle.issued_at_unix_secs == unsigned.issued_at_unix_secs,
        c.bundle.expires_at_unix_secs == unsigned.expires_at_unix_secs,
        c.bundle.client_signing_public_key@ == unsigned.client_signing_public_key@,
        c.bundle.issuer_signature@ == mldsa65_signature_of(server_signing_seed@, signable@),
        c.client_signing_seed == client_signing_seed,
{
    let mut b = unsigned;
    b.issuer_signature = mldsa65_sign(server_signing_seed, signable);
    IssuedClientCredential { bundle: b, client_signing_seed }
}

/// A validity window holds at `now`: issued no later than `now` plus the
/// skew, and expiring no earlier than `now` minus the skew (both saturating).
pub open spec fn validity_window_holds(issued: u64, expires: u64, now: u64, skew: u64) -> bool {
    !(issued > sat_add_u64(now, skew) || sat_add_u64(expires, skew) < now)
}

/// The signature check over signed bytes: the key's length, the signature's
/// encoding, then verification, each with its error.
pub open spec fn signature_check(
    public_key: Seq<u8>,
    message: Seq<u8>,
    signature: Seq<u8>,
    bad_signature: BootstrapError,
) -> Result<(), BootstrapError> {
    if public_key.len() != MLDSA65_PUBLIC_KEY_LEN {
        Err(BootstrapError::InvalidSigningPublicKey)
    } else if !mldsa65_signature_decodes(signature) {
        Err(BootstrapError::InvalidSignatureEncoding)
    } else if !mldsa65_accepts(public_key, message, signature) {
        Err(bad_signature)
    } else {
        Ok(())
    }
}

/// What validating a server identity gives, `signable` being its signed bytes.
pub open spec fn identity_check_spec(
    bundle: ServerIdentityBundle,
    now: u64,
    skew: u64,
    signable: Seq<u8>,
) -> Result<(), BootstrapError> {
    if !validity_window_holds(bundle.issued_at_unix_secs, bundle.expires_at_unix_secs, now, skew) {
        Err(BootstrapError::InvalidServerIdentityValidity)
    } else {
        signature_check(
            bundle.server_signing_public_key@,
            signable,
            bundle.self_signature@,
            BootstrapError::InvalidServerIdentitySignature,
        )
    }
}

/// What validating a client credential against the server identity gives,
/// `signable` being the credential's signed bytes.
pub open spec fn credential_check_spec(
    bundle: ClientCredentialBundle,
    server_identity: ServerIdentityBundle,
    stream_id: StreamId,
    direction: StreamDirection,
    now: u64,
    skew: u64,
    signable: Seq<u8>,
) -> Result<(), BootstrapError> {
    if bundle.issuer_server_id@ != server_identity.server_id@ {
        Err(BootstrapError::CredentialIssuerMismatch)
    } else if !validity_window_holds(bundle.issued_at_unix_secs, bundle.expires_at_unix_secs, now, skew) {
        Err(BootstrapError::InvalidClientCredentialValidity)
    } else if !bundle.scope.allows_spec(stream_id, direction) {
        Err(BootstrapError::CredentialScopeRejected { stream_id, direction })
    } else {
        signature_check(
            server_identity.server_signing_public_key@,
            signable,
            bundle.issuer_signature@,
            BootstrapError::InvalidClientCredentialSignature,
        )
    }
}

fn check_signature(public_key: &[u8], message: &[u8], signature: &[u8], bad_signature: BootstrapError) -> (r: Result<(), BootstrapError>)
    ensures
        r == signature_check(public_key@, message@, signature@, bad_signature),
{
    if !mldsa65_public_key_fits(public_key) {
        return Err(BootstrapError::InvalidSigningPublicKey);
    }
    if !mldsa65_signature_from_bytes(signature) {
        return Err(BootstrapError::InvalidSignatureEncoding);
    }
    if !mldsa65_verify(public_key, message, signature) {
        return Err(bad_signature);
    }
    Ok(())
}

fn window_holds(issued: u64, expires: u64, now: u64, skew: u64) -> (b: bool)
    ensures
        b == validity_window_holds(issued, expires, now, skew),
{
    !(issued > now.saturating_add(skew) || expires.saturating_add(skew) < now)
}

/// Validates a server identity at `now` with the allowed clock skew: its
/// validity window, then its self-signature over `signable` (the identity's
/// signed fields, encoded by the caller).
pub fn validate_server_identity_bundle(
    bundle: &ServerIdentityBundle,
    now_unix_secs: u64,
    clock_skew_secs: u64,
    signable: &[u8],
) -> (r: Result<(), BootstrapError>)
    ensures
        r == identity_check_spec(*bundle, now_unix_secs, clock_skew_secs, signable@),
{
    if !window_holds(bundle.issued_at_unix_secs, bundle.expires_at_unix_secs, now_unix_secs, clock_skew_secs) {
        return Err(BootstrapError::InvalidServerIdentityValidity);
    }
    check_signature(
        bundle.server_signing_public_key.as_slice(),
        signable,
        bundle.self_signature.as_slice(),
        BootstrapError::InvalidServerIdentitySignature,
    )
}

/// Validates a client credential for a stream and direction at `now`: its
/// issuer, its validity window, its scope, then the issuer's signature over
/// `signable` (the credential's signed fields, encoded by the caller) under
/// the server identity's key.
pub fn validate_client_credential_bundle(
    bundle: &ClientCredentialBundle,
    server_identity: &ServerIdentityBundle,
    stream_id: StreamId,
    direction: StreamDirection,
    now_unix_secs: u64,
    clock_skew_secs: u64,
    signable: &[u8],
) -> (r: Result<(), BootstrapError>)
    ensures
        r == credential_check_spec(
            *bundle,
            *server_identity,
            stream_id,
            direction,
            now_unix_secs,
            clock_skew_secs,
            signable@,
        ),
{
    if !str_equal(bundle.issuer_server_id.as_str(), server_identity.server_id.as_str()) {
        return Err(BootstrapError::CredentialIssuerMismatch);
    }
    if !window_holds(bundle.issued_at_unix_secs, bundle.expires_at_unix_secs, now_unix_secs, clock_skew_secs) {
        return Err(BootstrapError::InvalidClientCredentialValidity);
    }
    if !bundle.scope.allows(stream_id, direction) {
        return Err(BootstrapError::CredentialScopeRejected { stream_id, direction });
    }
    check_signature(
        server_identity.server_signing_public_key.as_slice(),
        signable,
        bundle.issuer_signature.as_slice(),
        BootstrapError::InvalidClientCredentialSignature,
    )
}


/// An identity issued from a seed over signed bytes passes validation over
/// the same bytes whenever its validity window holds.
pub proof fn lemma_issued_identity_validates(
    b: ServerIdentityBundle,
    seed: Seq<u8>,
    signable: Seq<u8>,
    now: u64,
    skew: u64,
)
    requires
        b.server_signing_public_key@ == mldsa65_public_key_of(seed),
        mldsa65_public_key_of(seed).len() == MLDSA65_PUBLIC_KEY_LEN,
        mldsa65_signature_decodes(mldsa65_signature_of(seed, signable)),
        mldsa65_accepts(mldsa65_public_key_of(seed), signable, mldsa65_signature_of(seed, signable)),
        b.self_signature@ == mldsa65_signature_of(seed, signable),
        validity_window_holds(b.issued_at_unix_secs, b.expires_at_unix_secs, now, skew),
    ensures
        identity_check_spec(b, now, skew, signable) == Ok::<(), BootstrapError>(()),
{
}

/// A credential issued by the server whose identity is checked passes
/// validation over the same signed bytes on every stream and direction its
/// scope allows, while its validity window holds.
pub proof fn lemma_issued_credential_validates(
    c: ClientCredentialBundle,
    server_identity: ServerIdentityBundle,
    server_seed: Seq<u8>,
    signable: Seq<u8>,
    stream_id: StreamId,
    direction: StreamDirection,
    now: u64,
    skew: u64,
)
    requires
        c.issuer_server_id@ == server_identity.server_id@,
        server_identity.server_signing_public_key@ == mldsa65_public_key_of(server_seed),
        mldsa65_public_key_of(server_seed).len() == MLDSA65_PUBLIC_KEY_LEN,
        mldsa65_signature_decodes(mldsa65_signature_of(server_seed, signable)),
        mldsa65_accepts(mldsa65_public_key_of(server_seed), signable, mldsa65_signature_of(server_seed, signable)),
        c.issuer_signature@ == mldsa65_signature_of(server_seed, signable),
        c.scope.allows_spec(stream_id, direction),
        validity_window_holds(c.issued_at_unix_secs, c.expires_at_unix_secs, now, skew),
    ensures
        credential_check_spec(c, server_identity, stream_id, direction, now, skew, signable) == Ok::<(), BootstrapError>(()),
{
}


// The server side of the mutual handshake: answering a client hello.

/// Length of an encoded ML-KEM-768 encapsulation key.
pub const MLKEM768_PUBLIC_KEY_LEN: usize = 1184;

#[derive(Debug, Clone, PartialEq, Eq)]
pub struct ClientHello {
    pub stream_id: StreamId,
    pub client_id: String,
    pub client_nonce: [u8; 16],
    pub client_ephemeral_kem_public_key: Vec<u8>,
    pub client_credential: ClientCredentialBundle,
}

#[derive(Debug, Clone, PartialEq, Eq)]
pub struct ServerHello {
    pub stream_id: StreamId,
    pub server_id: String,
    pub server_nonce: [u8; 16],
    pub server_ephemeral_kem_public_key: Vec<u8>,
    pub encapsulated_shared_secret_to_client: Vec<u8>,
    pub server_identity: ServerIdentityBundle,
}

#[derive(Debug, Clone, PartialEq, Eq)]
pub struct ClientFinish {
    pub stream_id: StreamId,
    pub encapsulated_shared_secret_to_server: Vec<u8>,
    pub transcript_signature: Vec<u8>,
}

#[derive(Debug, Clone, PartialEq, Eq)]
pub struct ServerFinish {
    pub stream_id: StreamId,
    pub transcript_signature: Vec<u8>,
}

#[derive(Debug, Clone, PartialEq, Eq)]
pub struct SimpleClientHello {
    pub stream_id: StreamId,
    pub client_nonce: [u8; 16],
    pub client_ephemeral_kem_public_key: Vec<u8>,
}

#[derive(Debug, Clone, PartialEq, Eq)]
pub struct SimpleServerHello {
    pub stream_id: StreamId,
    pub server_id: String,
    pub server_nonce: [u8; 16],
    pub encapsulated_shared_secret: Vec<u8>,
}

/// A bootstrap handshake message.
#[derive(Debug, Clone, PartialEq, Eq)]
pub enum BootstrapMessage {
    ClientHello(ClientHello),
    ServerHello(ServerHello),
    ClientFinish(ClientFinish),
    ServerFinish(ServerFinish),
    SimpleClientHello(SimpleClientHello),
    SimpleServerHello(SimpleServerHello),
}

/// The kind of a message.
pub open spec fn message_kind(m: BootstrapMessage) -> BootstrapMessageKind {
    match m {
        BootstrapMessage::ClientHello(_) => BootstrapMessageKind::ClientHello,
        BootstrapMessage::ServerHello(_) => BootstrapMessageKind::ServerHello,
        BootstrapMessage::ClientFinish(_) => BootstrapMessageKind::ClientFinish,
        BootstrapMessage::ServerFinish(_) => BootstrapMessageKind::ServerFinish,
        BootstrapMessage::SimpleClientHello(_) => BootstrapMessageKind::SimpleClientHello,
        BootstrapMessage::SimpleServerHello(_) => BootstrapMessageKind::SimpleServerHello,
    }
}

impl BootstrapMessage {
    pub fn kind(&self) -> (k: BootstrapMessageKind)
        ensures
            k == message_kind(*self),
    {
        match self {
            BootstrapMessage::ClientHello(_) => BootstrapMessageKind::ClientHello,
            BootstrapMessage::ServerHello(_) => BootstrapMessageKind::ServerHello,
            BootstrapMessage::ClientFinish(_) => BootstrapMessageKind::ClientFinish,
            BootstrapMessage::ServerFinish(_) => BootstrapMessageKind::ServerFinish,
            BootstrapMessage::SimpleClientHello(_) => BootstrapMessageKind::SimpleClientHello,
            BootstrapMessage::SimpleServerHello(_) => BootstrapMessageKind::SimpleServerHello,
        }
    }
}

/// Whether the bytes are a valid ML-KEM-768 encapsulation key (1184 bytes
/// whose coefficients are reduced).
pub uninterp spec fn mlkem768_key_valid(bytes: Seq<u8>) -> bool;

/// The encapsulation key of the ML-KEM-768 key pair a 64-byte seed determines.
pub uninterp spec fn mlkem768_public_key_of(seed: Seq<u8>) -> Seq<u8>;

/// The ciphertext and shared key of deterministic ML-KEM-768 encapsulation
/// to a key with the 32-byte randomness `m`.
pub uninterp spec fn mlkem768_encapsulated(public_key: Seq<u8>, m: Seq<u8>) -> (Seq<u8>, Seq<u8>);

/// `ml_kem::EncapsulationKey::<MlKem768>::new` on the bytes taken as a key
/// array: whether they are a valid encapsulation key, which needs 1184 bytes.
#[verifier::external_body]
fn mlkem768_public_key_accepted(bytes: &[u8]) -> (r: bool)
    ensures
        r == mlkem768_key_valid(bytes@),
        r ==> bytes@.len() == MLKEM768_PUBLIC_KEY_LEN,
{
    match ml_kem::Key::<ml_kem::EncapsulationKey<ml_kem::MlKem768>>::try_from(bytes) {
        Ok(key) => ml_kem::EncapsulationKey::<ml_kem::MlKem768>::new(&key).is_ok(),
        Err(_) => false,
    }
}

/// `ml_kem::DecapsulationKey::<MlKem768>::from_seed`, then its encapsulation
/// key's `to_bytes`: deterministic in the seed.
#[verifier::external_body]
fn mlkem768_public_key(seed: [u8; 64]) -> (r: Vec<u8>)
    ensures
        r@ == mlkem768_public_key_of(seed@),
{
    let secret = ml_kem::DecapsulationKey::<ml_kem::MlKem768>::from_seed(ml_kem::Seed::from(seed));
    ml_kem::KeyExport::to_bytes(secret.encapsulation_key()).to_vec()
}

/// `ml_kem::EncapsulationKey::<MlKem768>::encapsulate_deterministic` to the
/// decoded key with randomness `m`: the ciphertext and the 32-byte shared
/// key, a function of the key and `m`.
#[verifier::external_body]
fn mlkem768_encapsulate(public_key: &[u8], m: [u8; 32]) -> (r: (Vec<u8>, [u8; 32]))
    requires
        mlkem768_key_valid(public_key@),
    ensures
        (r.0@, r.1@) == mlkem768_encapsulated(public_key@, m@),
{
    let key = ml_kem::Key::<ml_kem::EncapsulationKey<ml_kem::MlKem768>>::try_from(public_key).unwrap();
    let ek = ml_kem::EncapsulationKey::<ml_kem::MlKem768>::new(&key).unwrap();
    let (ct, shared) = ek.encapsulate_deterministic(&m.into());
    (ct.to_vec(), shared.into())
}

/// A transcript part: its length (eight bytes, little-endian), then its bytes.
pub open spec fn transcript_part(part: Seq<u8>) -> Seq<u8> {
    u64_le(part.len() as u64) + part
}

fn push_transcript_part(out: &mut Vec<u8>, part: &[u8])
    ensures
        final(out)@ == old(out)@ + transcript_part(part@),
{
    push_u64_le(out, part.len() as u64);
    append_bytes(out, part);
}

/// The bytes of "server-hello".
pub open spec fn server_hello_label() -> Seq<u8> {
    seq![0x73u8, 0x65u8, 0x72u8, 0x76u8, 0x65u8, 0x72u8, 0x2du8, 0x68u8, 0x65u8, 0x6cu8, 0x6cu8, 0x6fu8]
}

/// "server-hello"
const LABEL_SERVER_HELLO: [u8; 12] = [0x73u8, 0x65u8, 0x72u8, 0x76u8, 0x65u8, 0x72u8, 0x2du8, 0x68u8, 0x65u8, 0x6cu8, 0x6cu8, 0x6fu8];

/// The randomness of the server's encapsulation to the client: the SHA-256
/// of the label, the server's KEM seed and both nonces, each behind its
/// length.
pub open spec fn server_hello_kem_randomness(kem_seed: Seq<u8>, server_nonce: Seq<u8>, client_nonce: Seq<u8>) -> Seq<u8> {
    sha256_digest(
        transcript_part(server_hello_label()) + transcript_part(kem_seed) + transcript_part(server_nonce)
            + transcript_part(client_nonce),
    )
}

/// The server's state between its hello and the client's finish.
#[derive(Debug, Clone)]
pub struct MutualServerBootstrapState {
    pub config: BootstrapServerConfig,
    pub client_hello: ClientHello,
    pub server_hello: ServerHello,
    pub server_nonce: [u8; 16],
    pub server_kem_seed: [u8; 64],
    pub client_shared_secret: [u8; 32],
}

/// Whether an id is among the revoked ones.
pub open spec fn id_revoked(ids: Seq<String>, id: Seq<char>) -> bool {
    exists|i: int| 0 <= i < ids.len() && (#[trigger] ids[i])@ == id
}

/// The checks of a client hello before the replay cache, in order: the
/// profile, the stream, the server's identity, the client's credential, the
/// client id and revocation.
pub open spec fn hello_check_spec(
    config: BootstrapServerConfig,
    hello: ClientHello,
    now: u64,
    identity_signable: Seq<u8>,
    credential_signable: Seq<u8>,
) -> Result<(), BootstrapError> {
    match config.security {
        ServerSecurityConfig::PqSimple { .. } => Err(
            BootstrapError::UnsupportedProtectionProfile(ProtectionProfileKind::PqSimpleV1),
        ),
        ServerSecurityConfig::PqMutual { server_identity, revoked_client_ids, .. } => {
            let skew = config.bootstrap.clock_skew_secs;
            if hello.stream_id != config.stream_id {
                Err(BootstrapError::UnexpectedStreamId { expected: config.stream_id, actual: hello.stream_id })
            } else {
                match identity_check_spec(server_identity, now, skew, identity_signable) {
                    Err(e) => Err(e),
                    Ok(_) => match credential_check_spec(
                        hello.client_credential,
                        server_identity,
                        config.stream_id,
                        config.direction,
                        now,
                        skew,
                        credential_signable,
                    ) {
                        Err(e) => Err(e),
                        Ok(_) => if hello.client_credential.client_id@ != hello.client_id@ {
                            Err(BootstrapError::ClientIdMismatch)
                        } else if id_revoked(revoked_client_ids@, hello.client_id@) {
                            Err(BootstrapError::RevokedClientCredential)
                        } else {
                            Ok(())
                        },
                    },
                }
            }
        },
    }
}

/// The server hello that answers a client hello: the stream, the server's
/// id, nonce and identity, the public key of its KEM seed, and the
/// ciphertext of the encapsulation to the client's key.
pub open spec fn server_hello_answers(
    h: ServerHello,
    config: BootstrapServerConfig,
    hello: ClientHello,
    server_nonce: Seq<u8>,
    server_kem_seed: Seq<u8>,
) -> bool {
    match config.security {
        ServerSecurityConfig::PqMutual { server_identity, .. } => {
            let enc = mlkem768_encapsulated(
                hello.client_ephemeral_kem_public_key@,
                server_hello_kem_randomness(server_kem_seed, server_nonce, hello.client_nonce@),
            );
            &&& h.stream_id == config.stream_id
            &&& h.server_id@ == server_identity.server_id@
            &&& h.server_nonce@ == server_nonce
            &&& h.server_ephemeral_kem_public_key@ == mlkem768_public_key_of(server_kem_seed)
            &&& h.encapsulated_shared_secret_to_client@ == enc.0
            &&& h.server_identity.server_id@ == server_identity.server_id@
            &&& h.server_identity.issued_at_unix_secs == server_identity.issued_at_unix_secs
            &&& h.server_identity.expires_at_unix_secs == server_identity.expires_at_unix_secs
            &&& h.server_identity.server_signing_public_key@ == server_identity.server_signing_public_key@
            &&& h.server_identity.self_signature@ == server_identity.self_signature@
        },
        _ => false,
    }
}

fn is_revoked(ids: &Vec<String>, id: &String) -> (b: bool)
    ensures
        b == id_revoked(ids@, id@),
{
    let mut i: usize = 0;
    while i < ids.len()
        invariant
            i <= ids@.len(),
            forall|j: int| 0 <= j < i ==> (#[trigger] ids@[j])@ != id@,
        decreases ids@.len() - i,
    {
        if str_equal(ids[i].as_str(), id.as_str()) {
            assert(ids@[i as int]@ == id@);
            return true;
        }
        i = i + 1;
    }
    false
}

fn copy_bytes(v: &Vec<u8>) -> (c: Vec<u8>)
    ensures
        c@ == v@,
{
    let c = crate::wire::copy_range(v.as_slice(), 0, v.len());
    assert(v@.subrange(0, v@.len() as int) =~= v@);
    c
}

fn copy_string(s: &String) -> (c: String)
    ensures
        c@ == s@,
{
    let mut c = String::new();
    c.append(s.as_str());
    c
}

fn copy_identity(b: &ServerIdentityBundle) -> (c: ServerIdentityBundle)
    ensures
        c.server_id@ == b.server_id@,
        c.issued_at_unix_secs == b.issued_at_unix_secs,
        c.expires_at_unix_secs == b.expires_at_unix_secs,
        c.server_signing_public_key@ == b.server_signing_public_key@,
        c.self_signature@ == b.self_signature@,
{
    ServerIdentityBundle {
        server_id: copy_string(&b.server_id),
        issued_at_unix_secs: b.issued_at_unix_secs,
        expires_at_unix_secs: b.expires_at_unix_secs,
        server_signing_public_key: copy_bytes(&b.server_signing_public_key),
        self_signature: copy_bytes(&b.self_signature),
    }
}

fn kem_randomness(kem_seed: &[u8; 64], server_nonce: &[u8; 16], client_nonce: &[u8; 16]) -> (m: [u8; 32])
    ensures
        m@ == server_hello_kem_randomness(kem_seed@, server_nonce@, client_nonce@),
{
    let mut buf: Vec<u8> = Vec::new();
    let label: [u8; 12] = LABEL_SERVER_HELLO;
    assert(label@ =~= server_hello_label());
    push_transcript_part(&mut buf, &label);
    push_transcript_part(&mut buf, kem_seed);
    push_transcript_part(&mut buf, server_nonce);
    push_transcript_part(&mut buf, client_nonce);
    sha256(buf.as_slice())
}

impl MutualServerBootstrapState {
    /// Answers a client hello: checks the message kind, the profile, the
    /// stream, the server's identity (over `identity_signable`), the client's
    /// credential (over `credential_signable`), the client id and
    /// revocation; then records the handshake in the replay cache, refusing
    /// a replay; then encapsulates to the client's KEM key and answers with
    /// the server hello.
    pub fn respond_to_client_hello(
        config: BootstrapServerConfig,
        replay_cache: &mut ReplayCache,
        message: BootstrapMessage,
        now_unix_secs: u64,
        server_nonce: [u8; 16],
        server_kem_seed: [u8; 64],
        identity_signable: &[u8],
        credential_signable: &[u8],
    ) -> (r: Result<(MutualServerBootstrapState, ServerHello), BootstrapError>)
        requires
            old(replay_cache).wf(),
        ensures
            final(replay_cache).wf(),
            match message {
                BootstrapMessage::ClientHello(hello) => match hello_check_spec(
                    config,
                    hello,
                    now_unix_secs,
                    identity_signable@,
                    credential_signable@,
                ) {
                    Err(e) => r == Err::<(MutualServerBootstrapState, ServerHello), BootstrapError>(e)
                        && final(replay_cache).view_entries() == old(replay_cache).view_entries(),
                    Ok(_) => {
                        let key = (hello.client_id@, hello.client_nonce@, server_nonce@);
                        let live = unexpired(old(replay_cache).view_entries(), now_unix_secs);
                        if has_entry(live, key) {
                            &&& r == Err::<(MutualServerBootstrapState, ServerHello), BootstrapError>(
                                BootstrapError::ReplayDetected,
                            )
                            &&& final(replay_cache).view_entries() == live
                        } else {
                            &&& final(replay_cache).view_entries() == live.push(
                                (key, hello.client_credential.expires_at_unix_secs),
                            )
                            &&& if !mlkem768_key_valid(hello.client_ephemeral_kem_public_key@) {
                                r == Err::<(MutualServerBootstrapState, ServerHello), BootstrapError>(
                                    BootstrapError::InvalidKemPublicKey,
                                )
                            } else {
                                &&& r is Ok
                                &&& server_hello_answers(
                                    r->Ok_0.1,
                                    config,
                                    hello,
                                    server_nonce@,
                                    server_kem_seed@,
                                )
                                &&& server_hello_answers(
                                    r->Ok_0.0.server_hello,
                                    config,
                                    hello,
                                    server_nonce@,
                                    server_kem_seed@,
                                )
                                &&& r->Ok_0.0.client_hello == hello
                                &&& r->Ok_0.0.config == config
                                &&& r->Ok_0.0.server_nonce == server_nonce
                                &&& r->Ok_0.0.server_kem_seed == server_kem_seed
                                &&& r->Ok_0.0.client_shared_secret@ == mlkem768_encapsulated(
                                    hello.client_ephemeral_kem_public_key@,
                                    server_hello_kem_randomness(
                                        server_kem_seed@,
                                        server_nonce@,
                                        hello.client_nonce@,
                                    ),
                                ).1
                            }
                        }
                    },
                },
                _ => r == Err::<(MutualServerBootstrapState, ServerHello), BootstrapError>(
                    BootstrapError::UnexpectedMessageKind {
                        expected: BootstrapMessageKind::ClientHello,
                        actual: message_kind(message),
                    },
                ) && final(replay_cache).view_entries() == old(replay_cache).view_entries(),
            },
    {
        let hello = match message {
            BootstrapMessage::ClientHello(h) => h,
            _ => {
                return Err(BootstrapError::UnexpectedMessageKind {
                    expected: BootstrapMessageKind::ClientHello,
                    actual: message.kind(),
                });
            },
        };
        let (server_identity, revoked_client_ids) = match &config.security {
            ServerSecurityConfig::PqMutual { server_identity, revoked_client_ids, .. } => (server_identity, revoked_client_ids),
            ServerSecurityConfig::PqSimple { .. } => {
                return Err(BootstrapError::UnsupportedProtectionProfile(config.protection_profile()));
            },
        };
        if hello.stream_id.0 != config.stream_id.0 {
            return Err(BootstrapError::UnexpectedStreamId { expected: config.stream_id, actual: hello.stream_id });
        }
        let skew = config.bootstrap.clock_skew_secs;
        match validate_server_identity_bundle(server_identity, now_unix_secs, skew, identity_signable) {
            Ok(()) => {},
            Err(e) => {
                return Err(e);
            },
        }
        match validate_client_credential_bundle(
            &hello.client_credential,
            server_identity,
            config.stream_id,
            config.direction,
            now_unix_secs,
            skew,
            credential_signable,
        ) {
            Ok(()) => {},
            Err(e) => {
                return Err(e);
            },
        }
        if !str_equal(hello.client_credential.client_id.as_str(), hello.client_id.as_str()) {
            return Err(BootstrapError::ClientIdMismatch);
        }
        if is_revoked(revoked_client_ids, &hello.client_id) {
            return Err(BootstrapError::RevokedClientCredential);
        }
        let key = ReplayCacheKey {
            client_id: copy_string(&hello.client_id),
            client_nonce: hello.client_nonce,
            server_nonce,
        };
        match replay_cache.check_and_insert(key, hello.client_credential.expires_at_unix_secs, now_unix_secs) {
            Ok(()) => {},
            Err(e) => {
                return Err(e);
            },
        }
        if !mlkem768_public_key_accepted(hello.client_ephemeral_kem_public_key.as_slice()) {
            return Err(BootstrapError::InvalidKemPublicKey);
        }
        let m = kem_randomness(&server_kem_seed, &server_nonce, &hello.client_nonce);
        let (ciphertext, shared) = mlkem768_encapsulate(hello.client_ephemeral_kem_public_key.as_slice(), m);
        let server_hello = ServerHello {
            stream_id: config.stream_id,
            server_id: copy_string(&server_identity.server_id),
            server_nonce,
            server_ephemeral_kem_public_key: mlkem768_public_key(server_kem_seed),
            encapsulated_shared_secret_to_client: ciphertext,
            server_identity: copy_identity(server_identity),
        };
        let answer = ServerHello {
            stream_id: server_hello.stream_id,
            server_id: copy_string(&server_hello.server_id),
            server_nonce: server_hello.server_nonce,
            server_ephemeral_kem_public_key: copy_bytes(&server_hello.server_ephemeral_kem_public_key),
            encapsulated_shared_secret_to_client: copy_bytes(&server_hello.encapsulated_shared_secret_to_client),
            server_identity: copy_identity(&server_hello.server_identity),
        };
        let state = MutualServerBootstrapState {
            config,
            client_hello: hello,
            server_hello,
            server_nonce,
            server_kem_seed,
            client_shared_secret: shared,
        };
        Ok((state, answer))
    }
}


// The server side of the mutual handshake: checking the client's finish.

/// Length of an ML-KEM-768 ciphertext.
pub const MLKEM768_CIPHERTEXT_LEN: usize = 1088;

/// The shared key that ML-KEM-768 decapsulation gives for the key pair a
/// 64-byte seed determines and a ciphertext.
pub uninterp spec fn mlkem768_decapsulated(seed: Seq<u8>, ciphertext: Seq<u8>) -> Seq<u8>;

/// `ml_kem::Ciphertext::<MlKem768>::try_from` on the bytes: the array
/// conversion accepts exactly 1088 bytes.
#[verifier::external_body]
fn mlkem768_ciphertext_fits(bytes: &[u8]) -> (r: bool)
    ensures
        r == (bytes@.len() == MLKEM768_CIPHERTEXT_LEN),
{
    ml_kem::Ciphertext::<ml_kem::MlKem768>::try_from(bytes).is_ok()
}

/// `ml_kem::DecapsulationKey::<MlKem768>::from_seed`, then
/// `Decapsulate::decapsulate` of the ciphertext: infallible (an invalid
/// ciphertext yields the implicit-rejection key) and a function of the
/// seed and ciphertext.
#[verifier::external_body]
fn mlkem768_decapsulate(seed: [u8; 64], ciphertext: &[u8]) -> (r: [u8; 32])
    requires
        ciphertext@.len() == MLKEM768_CIPHERTEXT_LEN,
    ensures
        r@ == mlkem768_decapsulated(seed@, ciphertext@),
{
    let secret = ml_kem::DecapsulationKey::<ml_kem::MlKem768>::from_seed(ml_kem::Seed::from(seed));
    let ct = ml_kem::Ciphertext::<ml_kem::MlKem768>::try_from(ciphertext).unwrap();
    ml_kem::Decapsulate::decapsulate(&secret, &ct).into()
}

/// The bytes of "pq_mutual_v1/client_finish".
pub open spec fn client_transcript_label() -> Seq<u8> {
    seq![0x70u8, 0x71u8, 0x5fu8, 0x6du8, 0x75u8, 0x74u8, 0x75u8, 0x61u8, 0x6cu8, 0x5fu8, 0x76u8, 0x31u8, 0x2fu8, 0x63u8, 0x6cu8, 0x69u8, 0x65u8, 0x6eu8, 0x74u8, 0x5fu8, 0x66u8, 0x69u8, 0x6eu8, 0x69u8, 0x73u8, 0x68u8]
}

/// The bytes of "pq_mutual_v1/server_finish".
pub open spec fn server_transcript_label() -> Seq<u8> {
    seq![0x70u8, 0x71u8, 0x5fu8, 0x6du8, 0x75u8, 0x74u8, 0x75u8, 0x61u8, 0x6cu8, 0x5fu8, 0x76u8, 0x31u8, 0x2fu8, 0x73u8, 0x65u8, 0x72u8, 0x76u8, 0x65u8, 0x72u8, 0x5fu8, 0x66u8, 0x69u8, 0x6eu8, 0x69u8, 0x73u8, 0x68u8]
}

/// "pq_mutual_v1/client_finish"
const LABEL_CLIENT_FINISH: [u8; 26] = [0x70u8, 0x71u8, 0x5fu8, 0x6du8, 0x75u8, 0x74u8, 0x75u8, 0x61u8, 0x6cu8, 0x5fu8, 0x76u8, 0x31u8, 0x2fu8, 0x63u8, 0x6cu8, 0x69u8, 0x65u8, 0x6eu8, 0x74u8, 0x5fu8, 0x66u8, 0x69u8, 0x6eu8, 0x69u8, 0x73u8, 0x68u8];

/// "pq_mutual_v1/server_finish"
const LABEL_SERVER_FINISH: [u8; 26] = [0x70u8, 0x71u8, 0x5fu8, 0x6du8, 0x75u8, 0x74u8, 0x75u8, 0x61u8, 0x6cu8, 0x5fu8, 0x76u8, 0x31u8, 0x2fu8, 0x73u8, 0x65u8, 0x72u8, 0x76u8, 0x65u8, 0x72u8, 0x5fu8, 0x66u8, 0x69u8, 0x6eu8, 0x69u8, 0x73u8, 0x68u8];

/// The transcript hash of three frames: SHA-256 over each behind its length.
pub open spec fn transcript_hash3(a: Seq<u8>, b: Seq<u8>, c: Seq<u8>) -> Seq<u8> {
    sha256_digest(transcript_part(a) + transcript_part(b) + transcript_part(c))
}

/// What the client signs in its finish: the label and the transcript hash
/// of both hellos and the unsigned finish.
pub open spec fn client_finish_signable(client_hello_frame: Seq<u8>, server_hello_frame: Seq<u8>, unsigned_finish: Seq<u8>) -> Seq<u8> {
    client_transcript_label() + transcript_hash3(client_hello_frame, server_hello_frame, unsigned_finish)
}

/// What the server signs in its finish: the label, the stream id, the
/// direction's root label and the transcript hash.
pub open spec fn server_finish_signable(stream_id: StreamId, direction: StreamDirection, transcript: Seq<u8>) -> Seq<u8> {
    server_transcript_label() + u64_le(stream_id.0) + pq_mutual_direction_label(direction) + transcript
}

/// The root of the mutual profile for a direction, from both shared secrets
/// and the transcript hash.
pub open spec fn mutual_root(
    stream_id: StreamId,
    direction: StreamDirection,
    server_to_client: Seq<u8>,
    client_to_server: Seq<u8>,
    transcript: Seq<u8>,
) -> Seq<u8> {
    hkdf_salted_32(
        pq_mutual_root_label() + u64_le(stream_id.0) + transcript,
        server_to_client + client_to_server + transcript,
        pq_mutual_direction_label(direction),
    )
}

/// A completed handshake: the stream, direction and profile, the root, and
/// who took part with which nonces.
#[derive(Debug, Clone, PartialEq, Eq)]
pub struct BootstrapCompleted {
    pub stream_id: StreamId,
    pub direction: StreamDirection,
    pub protection_profile: ProtectionProfileKind,
    pub root: [u8; 32],
    pub client_id: String,
    pub server_id: String,
    pub client_nonce: [u8; 16],
    pub server_nonce: [u8; 16],
}

/// What checking a client finish gives, the frames being the encoded
/// client hello, server hello, finish without its signature, and finish.
pub open spec fn client_finish_outcome(
    st: MutualServerBootstrapState,
    message: BootstrapMessage,
    client_hello_frame: Seq<u8>,
    server_hello_frame: Seq<u8>,
    unsigned_finish: Seq<u8>,
    client_finish_frame: Seq<u8>,
    r: Result<(BootstrapCompleted, ServerFinish), BootstrapError>,
) -> bool {
    match message {
        BootstrapMessage::ClientFinish(f) => match st.config.security {
            ServerSecurityConfig::PqSimple { .. } => r == Err::<(BootstrapCompleted, ServerFinish), BootstrapError>(
                BootstrapError::UnsupportedProtectionProfile(ProtectionProfileKind::PqSimpleV1),
            ),
            ServerSecurityConfig::PqMutual { server_signing_seed, .. } => if f.stream_id != st.config.stream_id {
                r == Err::<(BootstrapCompleted, ServerFinish), BootstrapError>(
                    BootstrapError::UnexpectedStreamId { expected: st.config.stream_id, actual: f.stream_id },
                )
            } else if f.encapsulated_shared_secret_to_server@.len() != MLKEM768_CIPHERTEXT_LEN {
                r == Err::<(BootstrapCompleted, ServerFinish), BootstrapError>(BootstrapError::InvalidKemCiphertext)
            } else {
                match signature_check(
                    st.client_hello.client_credential.client_signing_public_key@,
                    client_finish_signable(client_hello_frame, server_hello_frame, unsigned_finish),
                    f.transcript_signature@,
                    BootstrapError::InvalidClientTranscriptSignature,
                ) {
                    Err(e) => r == Err::<(BootstrapCompleted, ServerFinish), BootstrapError>(e),
                    Ok(_) => {
                        let th = transcript_hash3(client_hello_frame, server_hello_frame, client_finish_frame);
                        let server_shared = mlkem768_decapsulated(st.server_kem_seed@, f.encapsulated_shared_secret_to_server@);
                        &&& r is Ok
                        &&& r->Ok_0.0.stream_id == st.config.stream_id
                        &&& r->Ok_0.0.direction == st.config.direction
                        &&& r->Ok_0.0.protection_profile == ProtectionProfileKind::PqMutualV1
                        &&& r->Ok_0.0.root@ == mutual_root(
                            st.config.stream_id,
                            st.config.direction,
                            st.client_shared_secret@,
                            server_shared,
                            th,
                        )
                        &&& r->Ok_0.0.client_id@ == st.client_hello.client_id@
                        &&& r->Ok_0.0.server_id@ == st.server_hello.server_id@
                        &&& r->Ok_0.0.client_nonce == st.client_hello.client_nonce
                        &&& r->Ok_0.0.server_nonce == st.server_nonce
                        &&& r->Ok_0.1.stream_id == st.config.stream_id
                        &&& r->Ok_0.1.transcript_signature@ == mldsa65_signature_of(
                            server_signing_seed@,
                            server_finish_signable(st.config.stream_id, st.config.direction, th),
                        )
                    },
                }
            },
        },
        _ => r == Err::<(BootstrapCompleted, ServerFinish), BootstrapError>(
            BootstrapError::UnexpectedMessageKind {
                expected: BootstrapMessageKind::ClientFinish,
                actual: message_kind(message),
            },
        ),
    }
}

fn transcript_hash_of(a: &[u8], b: &[u8], c: &[u8]) -> (h: [u8; 32])
    ensures
        h@ == transcript_hash3(a@, b@, c@),
{
    let mut buf: Vec<u8> = Vec::new();
    push_transcript_part(&mut buf, a);
    push_transcript_part(&mut buf, b);
    push_transcript_part(&mut buf, c);
    sha256(buf.as_slice())
}

fn direction_label_bytes(direction: StreamDirection) -> (v: Vec<u8>)
    ensures
        v@ == pq_mutual_direction_label(direction),
{
    let label: [u8; 21] = match direction {
        StreamDirection::ClientToServer => LABEL_MUTUAL_C2S,
        StreamDirection::ServerToClient => LABEL_MUTUAL_S2C,
    };
    assert(label@ =~= pq_mutual_direction_label(direction));
    let mut v: Vec<u8> = Vec::new();
    append_bytes(&mut v, &label);
    v
}

impl MutualServerBootstrapState {
    /// Checks the client's finish: the message kind, the profile and the
    /// stream, the ciphertext's length, then the client's signature over the
    /// transcript of both hellos and the unsigned finish; then derives the
    /// root from both shared secrets and the transcript with the finish, and
    /// signs the server's finish.
    pub fn handle_client_finish(
        self,
        message: BootstrapMessage,
        client_hello_frame: &[u8],
        server_hello_frame: &[u8],
        unsigned_finish: &[u8],
        client_finish_frame: &[u8],
    ) -> (r: Result<(BootstrapCompleted, ServerFinish), BootstrapError>)
        ensures
            client_finish_outcome(
                self,
                message,
                client_hello_frame@,
                server_hello_frame@,
                unsigned_finish@,
                client_finish_frame@,
                r,
            ),
    {
        let finish = match message {
            BootstrapMessage::ClientFinish(f) => f,
            _ => {
                return Err(BootstrapError::UnexpectedMessageKind {
                    expected: BootstrapMessageKind::ClientFinish,
                    actual: message.kind(),
                });
            },
        };
        let server_signing_seed = match &self.config.security {
            ServerSecurityConfig::PqMutual { server_signing_seed, .. } => *server_signing_seed,
            ServerSecurityConfig::PqSimple { .. } => {
                return Err(BootstrapError::UnsupportedProtectionProfile(self.config.protection_profile()));
            },
        };
        if finish.stream_id.0 != self.config.stream_id.0 {
            return Err(BootstrapError::UnexpectedStreamId { expected: self.config.stream_id, actual: finish.stream_id });
        }
        if !mlkem768_ciphertext_fits(finish.encapsulated_shared_secret_to_server.as_slice()) {
            return Err(BootstrapError::InvalidKemCiphertext);
        }
        let server_shared = mlkem768_decapsulate(
            self.server_kem_seed,
            finish.encapsulated_shared_secret_to_server.as_slice(),
        );
        let th_signed = transcript_hash_of(client_hello_frame, server_hello_frame, unsigned_finish);
        let mut signable: Vec<u8> = Vec::new();
        let label: [u8; 26] = LABEL_CLIENT_FINISH;
        assert(label@ =~= client_transcript_label());
        append_bytes(&mut signable, &label);
        append_bytes(&mut signable, &th_signed);
        match check_signature(
            self.client_hello.client_credential.client_signing_public_key.as_slice(),
            signable.as_slice(),
            finish.transcript_signature.as_slice(),
            BootstrapError::InvalidClientTranscriptSignature,
        ) {
            Ok(()) => {},
            Err(e) => {
                return Err(e);
            },
        }
        let th = transcript_hash_of(client_hello_frame, server_hello_frame, client_finish_frame);
        let root = derive_pq_mutual_root(
            self.config.stream_id,
            self.config.direction,
            &self.client_shared_secret,
            &server_shared,
            &th,
        );
        let mut server_signable: Vec<u8> = Vec::new();
        let server_label: [u8; 26] = LABEL_SERVER_FINISH;
        assert(server_label@ =~= server_transcript_label());
        append_bytes(&mut server_signable, &server_label);
        push_u64_le(&mut server_signable, self.config.stream_id.0);
        let dir_label = direction_label_bytes(self.config.direction);
        append_bytes(&mut server_signable, dir_label.as_slice());
        append_bytes(&mut server_signable, &th);
        let signature = mldsa65_sign(server_signing_seed, server_signable.as_slice());
        let completed = BootstrapCompleted {
            stream_id: self.config.stream_id,
            direction: self.config.direction,
            protection_profile: ProtectionProfileKind::PqMutualV1,
            root,
            client_id: self.client_hello.client_id,
            server_id: self.server_hello.server_id,
            client_nonce: self.client_hello.client_nonce,
            server_nonce: self.server_nonce,
        };
        Ok((completed, ServerFinish { stream_id: self.config.stream_id, transcript_signature: signature }))
    }
}


// The client side of the mutual handshake.

/// The bytes of "client-finish".
pub open spec fn client_finish_label() -> Seq<u8> {
    seq![0x63u8, 0x6cu8, 0x69u8, 0x65u8, 0x6eu8, 0x74u8, 0x2du8, 0x66u8, 0x69u8, 0x6eu8, 0x69u8, 0x73u8, 0x68u8]
}

/// "client-finish"
const LABEL_CLIENT_FINISH_KEM: [u8; 13] = [0x63u8, 0x6cu8, 0x69u8, 0x65u8, 0x6eu8, 0x74u8, 0x2du8, 0x66u8, 0x69u8, 0x6eu8, 0x69u8, 0x73u8, 0x68u8];

/// The randomness of the client's encapsulation to the server: the SHA-256
/// of the label, the client's KEM seed and nonce, each behind its length.
pub open spec fn client_finish_kem_randomness(kem_seed: Seq<u8>, client_nonce: Seq<u8>) -> Seq<u8> {
    sha256_digest(transcript_part(client_finish_label()) + transcript_part(kem_seed) + transcript_part(client_nonce))
}

/// The client's handshake state: its configuration, nonce and KEM seed,
/// and, after the server hello, the server's nonce and both shared secrets,
/// and after its finish, the transcript hash and the root.
#[derive(Debug, Clone)]
pub struct MutualClientBootstrapState {
    pub config: BootstrapClientConfig,
    pub client_nonce: [u8; 16],
    pub client_kem_seed: [u8; 64],
    pub server_nonce: Option<[u8; 16]>,
    pub server_shared_secret: Option<[u8; 32]>,
    pub client_shared_secret: Option<[u8; 32]>,
    pub transcript_hash_after_client_finish: Option<[u8; 32]>,
    pub root: Option<[u8; 32]>,
}

/// Two identities carry the same fields.
pub open spec fn same_identity(a: ServerIdentityBundle, b: ServerIdentityBundle) -> bool {
    &&& a.server_id@ == b.server_id@
    &&& a.issued_at_unix_secs == b.issued_at_unix_secs
    &&& a.expires_at_unix_secs == b.expires_at_unix_secs
    &&& a.server_signing_public_key@ == b.server_signing_public_key@
    &&& a.self_signature@ == b.self_signature@
}

fn bytes_same(a: &Vec<u8>, b: &Vec<u8>) -> (r: bool)
    ensures
        r == (a@ == b@),
{
    if a.len() != b.len() {
        return false;
    }
    let mut i: usize = 0;
    while i < a.len()
        invariant
            i <= a@.len(),
            a@.len() == b@.len(),
            forall|j: int| 0 <= j < i ==> a@[j] == b@[j],
        decreases a@.len() - i,
    {
        if a[i] != b[i] {
            return false;
        }
        i = i + 1;
    }
    assert(a@ =~= b@);
    true
}

fn identities_same(a: &ServerIdentityBundle, b: &ServerIdentityBundle) -> (r: bool)
    ensures
        r == same_identity(*a, *b),
{
    str_equal(a.server_id.as_str(), b.server_id.as_str()) && a.issued_at_unix_secs == b.issued_at_unix_secs
        && a.expires_at_unix_secs == b.expires_at_unix_secs && bytes_same(
        &a.server_signing_public_key,
        &b.server_signing_public_key,
    ) && bytes_same(&a.self_signature, &b.self_signature)
}

fn copy_credential(b: &ClientCredentialBundle) -> (c: ClientCredentialBundle)
    ensures
        c.client_id@ == b.client_id@,
        c.issuer_server_id@ == b.issuer_server_id@,
        c.scope == b.scope,
        c.issued_at_unix_secs == b.issued_at_unix_secs,
        c.expires_at_unix_secs == b.expires_at_unix_secs,
        c.client_signing_public_key@ == b.client_signing_public_key@,
        c.issuer_signature@ == b.issuer_signature@,
{
    ClientCredentialBundle {
        client_id: copy_string(&b.client_id),
        issuer_server_id: copy_string(&b.issuer_server_id),
        scope: b.scope,
        issued_at_unix_secs: b.issued_at_unix_secs,
        expires_at_unix_secs: b.expires_at_unix_secs,
        client_signing_public_key: copy_bytes(&b.client_signing_public_key),
        issuer_signature: copy_bytes(&b.issuer_signature),
    }
}

/// What a server hello does to the client, in order: the message kind, the
/// profile, the stream, the server id against the identity it carries, that
/// identity against the expected one, its validity and signature (over
/// `identity_signable`), the ciphertext's length and the server's KEM key.
pub open spec fn server_hello_check_spec(
    config: BootstrapClientConfig,
    message: BootstrapMessage,
    now: u64,
    identity_signable: Seq<u8>,
) -> Result<(), BootstrapError> {
    match message {
        BootstrapMessage::ServerHello(h) => match config.security {
            ClientSecurityConfig::PqSimple => Err(BootstrapError::UnsupportedProtectionProfile(ProtectionProfileKind::PqSimpleV1)),
            ClientSecurityConfig::PqMutual { expected_server_identity, .. } => if h.stream_id != config.stream_id {
                Err(BootstrapError::UnexpectedStreamId { expected: config.stream_id, actual: h.stream_id })
            } else if h.server_id@ != h.server_identity.server_id@ {
                Err(BootstrapError::ServerIdMismatch)
            } else if !same_identity(h.server_identity, expected_server_identity) {
                Err(BootstrapError::UnexpectedServerIdentity)
            } else {
                match identity_check_spec(h.server_identity, now, config.bootstrap.clock_skew_secs, identity_signable) {
                    Err(e) => Err(e),
                    Ok(_) => if h.encapsulated_shared_secret_to_client@.len() != MLKEM768_CIPHERTEXT_LEN {
                        Err(BootstrapError::InvalidKemCiphertext)
                    } else if !mlkem768_key_valid(h.server_ephemeral_kem_public_key@) {
                        Err(BootstrapError::InvalidKemPublicKey)
                    } else {
                        Ok(())
                    },
                }
            },
        },
        _ => Err(BootstrapError::UnexpectedMessageKind {
            expected: BootstrapMessageKind::ServerHello,
            actual: message_kind(message),
        }),
    }
}

impl MutualClientBootstrapState {
    /// Starts the handshake: the client hello carries the stream, the
    /// credential's client id, the nonce, the public key of the KEM seed and
    /// the credential; the mutual profile is needed.
    pub fn start(
        config: BootstrapClientConfig,
        client_nonce: [u8; 16],
        client_kem_seed: [u8; 64],
    ) -> (r: Result<(MutualClientBootstrapState, ClientHello), BootstrapError>)
        ensures
            match config.security {
                ClientSecurityConfig::PqSimple => r == Err::<(MutualClientBootstrapState, ClientHello), BootstrapError>(
                    BootstrapError::UnsupportedProtectionProfile(ProtectionProfileKind::PqSimpleV1),
                ),
                ClientSecurityConfig::PqMutual { issued_credential, .. } => {
                    &&& r is Ok
                    &&& r->Ok_0.0.config == config
                    &&& r->Ok_0.0.client_nonce == client_nonce
                    &&& r->Ok_0.0.client_kem_seed == client_kem_seed
                    &&& r->Ok_0.0.server_nonce is None
                    &&& r->Ok_0.0.server_shared_secret is None
                    &&& r->Ok_0.0.client_shared_secret is None
                    &&& r->Ok_0.0.transcript_hash_after_client_finish is None
                    &&& r->Ok_0.0.root is None
                    &&& r->Ok_0.1.stream_id == config.stream_id
                    &&& r->Ok_0.1.client_id@ == issued_credential.bundle.client_id@
                    &&& r->Ok_0.1.client_nonce == client_nonce
                    &&& r->Ok_0.1.client_ephemeral_kem_public_key@ == mlkem768_public_key_of(client_kem_seed@)
                    &&& r->Ok_0.1.client_credential.client_id@ == issued_credential.bundle.client_id@
                    &&& r->Ok_0.1.client_credential.issuer_server_id@ == issued_credential.bundle.issuer_server_id@
                    &&& r->Ok_0.1.client_credential.scope == issued_credential.bundle.scope
                    &&& r->Ok_0.1.client_credential.issued_at_unix_secs == issued_credential.bundle.issued_at_unix_secs
                    &&& r->Ok_0.1.client_credential.expires_at_unix_secs == issued_credential.bundle.expires_at_unix_secs
                    &&& r->Ok_0.1.client_credential.client_signing_public_key@ == issued_credential.bundle.client_signing_public_key@
                    &&& r->Ok_0.1.client_credential.issuer_signature@ == issued_credential.bundle.issuer_signature@
                },
            },
    {
        let hello = match &config.security {
            ClientSecurityConfig::PqMutual { issued_credential, .. } => ClientHello {
                stream_id: config.stream_id,
                client_id: copy_string(&issued_credential.bundle.client_id),
                client_nonce,
                client_ephemeral_kem_public_key: mlkem768_public_key(client_kem_seed),
                client_credential: copy_credential(&issued_credential.bundle),
            },
            ClientSecurityConfig::PqSimple => {
                return Err(BootstrapError::UnsupportedProtectionProfile(config.protection_profile()));
            },
        };
        let state = MutualClientBootstrapState {
            config,
            client_nonce,
            client_kem_seed,
            server_nonce: None,
            server_shared_secret: None,
            client_shared_secret: None,
            transcript_hash_after_client_finish: None,
            root: None,
        };
        Ok((state, hello))
    }

    /// Takes in the server hello: checks it (see `server_hello_check_spec`),
    /// then decapsulates the server's secret, encapsulates the client's to
    /// the server's KEM key, keeps both and the server's nonce, and gives the
    /// client finish before its signature; a refused hello changes nothing.
    pub fn handle_server_hello(
        &mut self,
        message: BootstrapMessage,
        now_unix_secs: u64,
        identity_signable: &[u8],
    ) -> (r: Result<ClientFinish, BootstrapError>)
        ensures
            match server_hello_check_spec(old(self).config, message, now_unix_secs, identity_signable@) {
                Err(e) => r == Err::<ClientFinish, BootstrapError>(e) && *final(self) == *old(self),
                Ok(_) => match message {
                    BootstrapMessage::ServerHello(h) => {
                        let enc = mlkem768_encapsulated(
                            h.server_ephemeral_kem_public_key@,
                            client_finish_kem_randomness(old(self).client_kem_seed@, old(self).client_nonce@),
                        );
                        &&& r is Ok
                        &&& r->Ok_0.stream_id == old(self).config.stream_id
                        &&& r->Ok_0.encapsulated_shared_secret_to_server@ == enc.0
                        &&& r->Ok_0.transcript_signature@.len() == 0
                        &&& final(self).config == old(self).config
                        &&& final(self).client_nonce == old(self).client_nonce
                        &&& final(self).client_kem_seed == old(self).client_kem_seed
                        &&& final(self).server_nonce == Some(h.server_nonce)
                        &&& final(self).server_shared_secret matches Some(k) && k@ == mlkem768_decapsulated(
                            old(self).client_kem_seed@,
                            h.encapsulated_shared_secret_to_client@,
                        )
                        &&& final(self).client_shared_secret matches Some(k) && k@ == enc.1
                        &&& final(self).transcript_hash_after_client_finish == old(self).transcript_hash_after_client_finish
                        &&& final(self).root == old(self).root
                    },
                    _ => false,
                },
            },
    {
        let h = match message {
            BootstrapMessage::ServerHello(h) => h,
            _ => {
                return Err(BootstrapError::UnexpectedMessageKind {
                    expected: BootstrapMessageKind::ServerHello,
                    actual: message.kind(),
                });
            },
        };
        let expected = match &self.config.security {
            ClientSecurityConfig::PqMutual { expected_server_identity, .. } => expected_server_identity,
            ClientSecurityConfig::PqSimple => {
                return Err(BootstrapError::UnsupportedProtectionProfile(self.config.protection_profile()));
            },
        };
        if h.stream_id.0 != self.config.stream_id.0 {
            return Err(BootstrapError::UnexpectedStreamId { expected: self.config.stream_id, actual: h.stream_id });
        }
        if !str_equal(h.server_id.as_str(), h.server_identity.server_id.as_str()) {
            return Err(BootstrapError::ServerIdMismatch);
        }
        if !identities_same(&h.server_identity, expected) {
            return Err(BootstrapError::UnexpectedServerIdentity);
        }
        match validate_server_identity_bundle(
            &h.server_identity,
            now_unix_secs,
            self.config.bootstrap.clock_skew_secs,
            identity_signable,
        ) {
            Ok(()) => {},
            Err(e) => {
                return Err(e);
            },
        }
        if !mlkem768_ciphertext_fits(h.encapsulated_shared_secret_to_client.as_slice()) {
            return Err(BootstrapError::InvalidKemCiphertext);
        }
        if !mlkem768_public_key_accepted(h.server_ephemeral_kem_public_key.as_slice()) {
            return Err(BootstrapError::InvalidKemPublicKey);
        }
        let server_shared = mlkem768_decapsulate(self.client_kem_seed, h.encapsulated_shared_secret_to_client.as_slice());
        let mut buf: Vec<u8> = Vec::new();
        let label: [u8; 13] = LABEL_CLIENT_FINISH_KEM;
        assert(label@ =~= client_finish_label());
        push_transcript_part(&mut buf, &label);
        push_transcript_part(&mut buf, &self.client_kem_seed);
        push_transcript_part(&mut buf, &self.client_nonce);
        let m = sha256(buf.as_slice());
        let (ciphertext, client_shared) = mlkem768_encapsulate(h.server_ephemeral_kem_public_key.as_slice(), m);
        self.server_nonce = Some(h.server_nonce);
        self.server_shared_secret = Some(server_shared);
        self.client_shared_secret = Some(client_shared);
        Ok(ClientFinish {
            stream_id: self.config.stream_id,
            encapsulated_shared_secret_to_server: ciphertext,
            transcript_signature: Vec::new(),
        })
    }

    /// Signs the client finish: the client credential's seed signs the
    /// transcript of both hellos and the unsigned finish; the mutual profile
    /// is needed.
    pub fn sign_client_finish(
        &self,
        unsigned: ClientFinish,
        client_hello_frame: &[u8],
        server_hello_frame: &[u8],
        unsigned_finish: &[u8],
    ) -> (r: Result<ClientFinish, BootstrapError>)
        ensures
            match self.config.security {
                ClientSecurityConfig::PqSimple => r == Err::<ClientFinish, BootstrapError>(
                    BootstrapError::UnsupportedProtectionProfile(ProtectionProfileKind::PqSimpleV1),
                ),
                ClientSecurityConfig::PqMutual { issued_credential, .. } => {
                    &&& r is Ok
                    &&& r->Ok_0.stream_id == unsigned.stream_id
                    &&& r->Ok_0.encapsulated_shared_secret_to_server == unsigned.encapsulated_shared_secret_to_server
                    &&& r->Ok_0.transcript_signature@ == mldsa65_signature_of(
                        issued_credential.client_signing_seed@,
                        client_finish_signable(client_hello_frame@, server_hello_frame@, unsigned_finish@),
                    )
                },
            },
    {
        let seed = match &self.config.security {
            ClientSecurityConfig::PqMutual { issued_credential, .. } => issued_credential.client_signing_seed,
            ClientSecurityConfig::PqSimple => {
                return Err(BootstrapError::UnsupportedProtectionProfile(self.config.protection_profile()));
            },
        };
        let th = transcript_hash_of(client_hello_frame, server_hello_frame, unsigned_finish);
        let mut signable: Vec<u8> = Vec::new();
        let label: [u8; 26] = LABEL_CLIENT_FINISH;
        assert(label@ =~= client_transcript_label());
        append_bytes(&mut signable, &label);
        append_bytes(&mut signable, &th);
        let signature = mldsa65_sign(seed, signable.as_slice());
        let mut f = unsigned;
        f.transcript_signature = signature;
        Ok(f)
    }

    /// Records the transcript with the sent finish and derives the root from
    /// both shared secrets; before a server hello was taken in there is
    /// nothing to derive and the state is unchanged.
    pub fn record_client_finish(&mut self, client_hello_frame: &[u8], server_hello_frame: &[u8], client_finish_frame: &[u8])
        ensures
            match (old(self).server_shared_secret, old(self).client_shared_secret) {
                (Some(s2c), Some(c2s)) => {
                    let th = transcript_hash3(client_hello_frame@, server_hello_frame@, client_finish_frame@);
                    &&& final(self).transcript_hash_after_client_finish matches Some(t) && t@ == th
                    &&& final(self).root matches Some(root) && root@ == mutual_root(
                        old(self).config.stream_id,
                        old(self).config.direction,
                        s2c@,
                        c2s@,
                        th,
                    )
                    &&& final(self).config == old(self).config
                    &&& final(self).client_nonce == old(self).client_nonce
                    &&& final(self).client_kem_seed == old(self).client_kem_seed
                    &&& final(self).server_nonce == old(self).server_nonce
                    &&& final(self).server_shared_secret == old(self).server_shared_secret
                    &&& final(self).client_shared_secret == old(self).client_shared_secret
                },
                _ => *final(self) == *old(self),
            },
    {
        match (self.server_shared_secret, self.client_shared_secret) {
            (Some(s2c), Some(c2s)) => {
                let th = transcript_hash_of(client_hello_frame, server_hello_frame, client_finish_frame);
                let root = derive_pq_mutual_root(self.config.stream_id, self.config.direction, &s2c, &c2s, &th);
                self.transcript_hash_after_client_finish = Some(th);
                self.root = Some(root);
            },
            _ => {},
        }
    }

    /// Takes in the server's finish: checks the message kind, the profile,
    /// that the client's finish was recorded, and the server's signature
    /// over the transcript under the expected identity's key; then the
    /// handshake is complete with the recorded root.
    pub fn handle_server_finish(&self, message: BootstrapMessage) -> (r: Result<BootstrapCompleted, BootstrapError>)
        ensures
            match message {
                BootstrapMessage::ServerFinish(f) => match self.config.security {
                    ClientSecurityConfig::PqSimple => r == Err::<BootstrapCompleted, BootstrapError>(
                        BootstrapError::UnsupportedProtectionProfile(ProtectionProfileKind::PqSimpleV1),
                    ),
                    ClientSecurityConfig::PqMutual { issued_credential, expected_server_identity } => match (
                        self.transcript_hash_after_client_finish,
                        self.root,
                        self.server_nonce,
                    ) {
                        (Some(th), Some(root), Some(server_nonce)) => match signature_check(
                            expected_server_identity.server_signing_public_key@,
                            server_finish_signable(self.config.stream_id, self.config.direction, th@),
                            f.transcript_signature@,
                            BootstrapError::InvalidServerTranscriptSignature,
                        ) {
                            Err(e) => r == Err::<BootstrapCompleted, BootstrapError>(e),
                            Ok(_) => {
                                &&& r is Ok
                                &&& r->Ok_0.stream_id == self.config.stream_id
                                &&& r->Ok_0.direction == self.config.direction
                                &&& r->Ok_0.protection_profile == ProtectionProfileKind::PqMutualV1
                                &&& r->Ok_0.root == root
                                &&& r->Ok_0.client_id@ == issued_credential.bundle.client_id@
                                &&& r->Ok_0.server_id@ == expected_server_identity.server_id@
                                &&& r->Ok_0.client_nonce == self.client_nonce
                                &&& r->Ok_0.server_nonce == server_nonce
                            },
                        },
                        _ => r == Err::<BootstrapCompleted, BootstrapError>(
                            BootstrapError::UnexpectedMessageKind {
                                expected: BootstrapMessageKind::ServerHello,
                                actual: BootstrapMessageKind::ServerFinish,
                            },
                        ),
                    },
                },
                _ => r == Err::<BootstrapCompleted, BootstrapError>(
                    BootstrapError::UnexpectedMessageKind {
                        expected: BootstrapMessageKind::ServerFinish,
                        actual: message_kind(message),
                    },
                ),
            },
    {
        let f = match message {
            BootstrapMessage::ServerFinish(f) => f,
            _ => {
                return Err(BootstrapError::UnexpectedMessageKind {
                    expected: BootstrapMessageKind::ServerFinish,
                    actual: message.kind(),
                });
            },
        };
        let (issued, expected) = match &self.config.security {
            ClientSecurityConfig::PqMutual { issued_credential, expected_server_identity } => (issued_credential, expected_server_identity),
            ClientSecurityConfig::PqSimple => {
                return Err(BootstrapError::UnsupportedProtectionProfile(self.config.protection_profile()));
            },
        };
        let (th, root, server_nonce) = match (self.transcript_hash_after_client_finish, self.root, self.server_nonce) {
            (Some(th), Some(root), Some(n)) => (th, root, n),
            _ => {
                return Err(BootstrapError::UnexpectedMessageKind {
                    expected: BootstrapMessageKind::ServerHello,
                    actual: BootstrapMessageKind::ServerFinish,
                });
            },
        };
        let mut signable: Vec<u8> = Vec::new();
        let label: [u8; 26] = LABEL_SERVER_FINISH;
        assert(label@ =~= server_transcript_label());
        append_bytes(&mut signable, &label);
        push_u64_le(&mut signable, self.config.stream_id.0);
        let dir_label = direction_label_bytes(self.config.direction);
        append_bytes(&mut signable, dir_label.as_slice());
        append_bytes(&mut signable, &th);
        match check_signature(
            expected.server_signing_public_key.as_slice(),
            signable.as_slice(),
            f.transcript_signature.as_slice(),
            BootstrapError::InvalidServerTranscriptSignature,
        ) {
            Ok(()) => {},
            Err(e) => {
                return Err(e);
            },
        }
        Ok(BootstrapCompleted {
            stream_id: self.config.stream_id,
            direction: self.config.direction,
            protection_profile: ProtectionProfileKind::PqMutualV1,
            root,
            client_id: copy_string(&issued.bundle.client_id),
            server_id: copy_string(&expected.server_id),
            client_nonce: self.client_nonce,
            server_nonce,
        })
    }
}


// Bootstrap frames: the magic, then the encoded message.

/// The magic that starts every bootstrap frame.
pub open spec fn bootstrap_magic() -> Seq<u8> {
    seq![0x57u8, 0x53u8, 0x42u8, 0x4fu8, 0x4fu8, 0x54u8, 0x31u8, 0x00u8]
}

/// "WSBOOT1" and a zero byte.
const BOOTSTRAP_MAGIC: [u8; 8] = [0x57u8, 0x53u8, 0x42u8, 0x4fu8, 0x4fu8, 0x54u8, 0x31u8, 0x00u8];

/// Frames an encoded message of a kind: the magic then the payload, refused
/// when longer than the configuration allows.
pub fn to_frame_bytes(kind: BootstrapMessageKind, payload: &[u8], config: &BootstrapConfig) -> (r: Result<Vec<u8>, BootstrapError>)
    requires
        payload@.len() + 8 <= usize::MAX,
    ensures
        bootstrap_magic().len() + payload@.len() > config.max_bootstrap_frame_bytes ==> r == Err::<Vec<u8>, BootstrapError>(
            BootstrapError::FrameTooLarge {
                kind,
                actual_len: (bootstrap_magic().len() + payload@.len()) as usize,
                max_len: config.max_bootstrap_frame_bytes,
            },
        ),
        bootstrap_magic().len() + payload@.len() <= config.max_bootstrap_frame_bytes ==> r is Ok && r->Ok_0@
            == bootstrap_magic() + payload@,
{
    if payload.len() > config.max_bootstrap_frame_bytes || config.max_bootstrap_frame_bytes - payload.len() < 8 {
        return Err(BootstrapError::FrameTooLarge { kind, actual_len: payload.len() + 8, max_len: config.max_bootstrap_frame_bytes });
    }
    let magic: [u8; 8] = BOOTSTRAP_MAGIC;
    assert(magic@ =~= bootstrap_magic());
    let mut out: Vec<u8> = Vec::new();
    append_bytes(&mut out, &magic);
    append_bytes(&mut out, payload);
    Ok(out)
}

/// The encoded message inside a frame: a frame longer than the
/// configuration allows is refused (reported as a client hello), then one
/// that does not start with the magic.
pub fn frame_payload(frame: &[u8], config: &BootstrapConfig) -> (r: Result<Vec<u8>, BootstrapError>)
    ensures
        frame@.len() > config.max_bootstrap_frame_bytes ==> r == Err::<Vec<u8>, BootstrapError>(
            BootstrapError::FrameTooLarge {
                kind: BootstrapMessageKind::ClientHello,
                actual_len: frame@.len() as usize,
                max_len: config.max_bootstrap_frame_bytes,
            },
        ),
        frame@.len() <= config.max_bootstrap_frame_bytes && (frame@.len() < 8 || frame@.subrange(0, 8)
            != bootstrap_magic()) ==> r == Err::<Vec<u8>, BootstrapError>(BootstrapError::InvalidFrameMagic),
        frame@.len() <= config.max_bootstrap_frame_bytes && frame@.len() >= 8 && frame@.subrange(0, 8)
            == bootstrap_magic() ==> r is Ok && r->Ok_0@ == frame@.subrange(8, frame@.len() as int),
{
    if frame.len() > config.max_bootstrap_frame_bytes {
        return Err(BootstrapError::FrameTooLarge {
            kind: BootstrapMessageKind::ClientHello,
            actual_len: frame.len(),
            max_len: config.max_bootstrap_frame_bytes,
        });
    }
    if frame.len() < 8 {
        return Err(BootstrapError::InvalidFrameMagic);
    }
    let magic: [u8; 8] = BOOTSTRAP_MAGIC;
    assert(magic@ =~= bootstrap_magic());
    let mut i: usize = 0;
    while i < 8
        invariant
            i <= 8,
            frame@.len() >= 8,
            frame@.len() <= config.max_bootstrap_frame_bytes,
            magic@ == bootstrap_magic(),
            forall|j: int| 0 <= j < i ==> frame@[j] == magic@[j],
        decreases 8 - i,
    {
        if frame[i] != magic[i] {
            assert(frame@.subrange(0, 8)[i as int] != bootstrap_magic()[i as int]);
            return Err(BootstrapError::InvalidFrameMagic);
        }
        i = i + 1;
    }
    assert(frame@.subrange(0, 8) =~= bootstrap_magic());
    Ok(crate::wire::copy_range(frame, 8, frame.len()))
}


// The simple profile: the client sends a KEM key, the server encapsulates to
// it, and both derive the root from the shared key and the two hellos.

/// The bytes of "simple-server-hello".
pub open spec fn simple_server_hello_label() -> Seq<u8> {
    seq![
        0x73u8, 0x69u8, 0x6du8, 0x70u8, 0x6cu8, 0x65u8, 0x2du8, 0x73u8, 0x65u8, 0x72u8,
        0x76u8, 0x65u8, 0x72u8, 0x2du8, 0x68u8, 0x65u8, 0x6cu8, 0x6cu8, 0x6fu8,
    ]
}

/// "simple-server-hello"
const LABEL_SIMPLE_SERVER_HELLO: [u8; 19] = [
    0x73u8, 0x69u8, 0x6du8, 0x70u8, 0x6cu8, 0x65u8, 0x2du8, 0x73u8, 0x65u8, 0x72u8,
    0x76u8, 0x65u8, 0x72u8, 0x2du8, 0x68u8, 0x65u8, 0x6cu8, 0x6cu8, 0x6fu8,
];

/// The randomness of the simple server's encapsulation: the SHA-256 of the
/// label, the server's KEM seed and both nonces, each behind its length.
pub open spec fn simple_hello_kem_randomness(kem_seed: Seq<u8>, server_nonce: Seq<u8>, client_nonce: Seq<u8>) -> Seq<u8> {
    sha256_digest(
        transcript_part(simple_server_hello_label()) + transcript_part(kem_seed) + transcript_part(server_nonce)
            + transcript_part(client_nonce),
    )
}

fn simple_kem_randomness(kem_seed: &[u8; 64], server_nonce: &[u8; 16], client_nonce: &[u8; 16]) -> (m: [u8; 32])
    ensures
        m@ == simple_hello_kem_randomness(kem_seed@, server_nonce@, client_nonce@),
{
    let mut buf: Vec<u8> = Vec::new();
    let label: [u8; 19] = LABEL_SIMPLE_SERVER_HELLO;
    assert(label@ =~= simple_server_hello_label());
    push_transcript_part(&mut buf, &label);
    push_transcript_part(&mut buf, kem_seed);
    push_transcript_part(&mut buf, server_nonce);
    push_transcript_part(&mut buf, client_nonce);
    sha256(buf.as_slice())
}

/// The transcript hash of two frames: SHA-256 over each behind its length.
pub open spec fn transcript_hash2(a: Seq<u8>, b: Seq<u8>) -> Seq<u8> {
    sha256_digest(transcript_part(a) + transcript_part(b))
}

fn transcript_hash_of2(a: &[u8], b: &[u8]) -> (h: [u8; 32])
    ensures
        h@ == transcript_hash2(a@, b@),
{
    let mut buf: Vec<u8> = Vec::new();
    push_transcript_part(&mut buf, a);
    push_transcript_part(&mut buf, b);
    sha256(buf.as_slice())
}

/// The root of the simple profile for a direction, from the shared key and
/// the transcript hash (as `derive_pq_simple_root` computes it).
pub open spec fn simple_root(stream_id: StreamId, direction: StreamDirection, shared: Seq<u8>, transcript: Seq<u8>) -> Seq<u8> {
    hkdf_salted_32(
        pq_simple_root_label() + u64_le(stream_id.0) + transcript,
        shared + transcript,
        pq_simple_direction_label(direction),
    )
}

/// The id the simple server goes by: the configured one, or
/// "pq_simple_v1_server" where that is empty.
pub open spec fn simple_server_id(bootstrap: PqSimpleServerBootstrapConfig) -> Seq<char> {
    if bootstrap.server_id@.len() == 0 {
        "pq_simple_v1_server"@
    } else {
        bootstrap.server_id@
    }
}

/// Answers a simple client hello: checks the message kind, that the server
/// runs the simple profile, and the stream; then encapsulates to the
/// client's KEM key (refusing an invalid key) and gives the server hello and
/// the shared key.
pub fn respond_to_simple_client_hello(
    config: &BootstrapServerConfig,
    message: BootstrapMessage,
    server_nonce: [u8; 16],
    server_kem_seed: [u8; 64],
) -> (r: Result<(SimpleServerHello, [u8; 32]), BootstrapError>)
    ensures
        match message {
            BootstrapMessage::SimpleClientHello(hello) => match config.security {
                ServerSecurityConfig::PqMutual { .. } => r == Err::<(SimpleServerHello, [u8; 32]), BootstrapError>(
                    BootstrapError::UnsupportedProtectionProfile(ProtectionProfileKind::PqMutualV1),
                ),
                ServerSecurityConfig::PqSimple { bootstrap } => if hello.stream_id != config.stream_id {
                    r == Err::<(SimpleServerHello, [u8; 32]), BootstrapError>(
                        BootstrapError::UnexpectedStreamId { expected: config.stream_id, actual: hello.stream_id },
                    )
                } else if !mlkem768_key_valid(hello.client_ephemeral_kem_public_key@) {
                    r == Err::<(SimpleServerHello, [u8; 32]), BootstrapError>(BootstrapError::InvalidKemPublicKey)
                } else {
                    let enc = mlkem768_encapsulated(
                        hello.client_ephemeral_kem_public_key@,
                        simple_hello_kem_randomness(server_kem_seed@, server_nonce@, hello.client_nonce@),
                    );
                    &&& r is Ok
                    &&& r->Ok_0.0.stream_id == config.stream_id
                    &&& r->Ok_0.0.server_id@ == simple_server_id(bootstrap)
                    &&& r->Ok_0.0.server_nonce == server_nonce
                    &&& r->Ok_0.0.encapsulated_shared_secret@ == enc.0
                    &&& r->Ok_0.1@ == enc.1
                },
            },
            _ => r == Err::<(SimpleServerHello, [u8; 32]), BootstrapError>(
                BootstrapError::UnexpectedMessageKind {
                    expected: BootstrapMessageKind::SimpleClientHello,
                    actual: message_kind(message),
                },
            ),
        },
{
    let hello = match message {
        BootstrapMessage::SimpleClientHello(h) => h,
        _ => {
            return Err(BootstrapError::UnexpectedMessageKind {
                expected: BootstrapMessageKind::SimpleClientHello,
                actual: message.kind(),
            });
        },
    };
    let bootstrap = match &config.security {
        ServerSecurityConfig::PqSimple { bootstrap } => bootstrap,
        ServerSecurityConfig::PqMutual { .. } => {
            return Err(BootstrapError::UnsupportedProtectionProfile(config.protection_profile()));
        },
    };
    if hello.stream_id.0 != config.stream_id.0 {
        return Err(BootstrapError::UnexpectedStreamId { expected: config.stream_id, actual: hello.stream_id });
    }
    if !mlkem768_public_key_accepted(hello.client_ephemeral_kem_public_key.as_slice()) {
        return Err(BootstrapError::InvalidKemPublicKey);
    }
    let m = simple_kem_randomness(&server_kem_seed, &server_nonce, &hello.client_nonce);
    let (ciphertext, shared) = mlkem768_encapsulate(hello.client_ephemeral_kem_public_key.as_slice(), m);
    let server_id = if bootstrap.server_id.as_str().is_empty() {
        String::from_str("pq_simple_v1_server")
    } else {
        copy_string(&bootstrap.server_id)
    };
    Ok((SimpleServerHello { stream_id: config.stream_id, server_id, server_nonce, encapsulated_shared_secret: ciphertext }, shared))
}

/// The server's side of a completed simple handshake, the frames being the
/// encoded client hello and server hello.
pub fn complete_simple_server(
    config: &BootstrapServerConfig,
    client_nonce: [u8; 16],
    server_hello: &SimpleServerHello,
    shared_secret: [u8; 32],
    client_hello_frame: &[u8],
    server_hello_frame: &[u8],
) -> (c: BootstrapCompleted)
    ensures
        c.stream_id == config.stream_id,
        c.direction == config.direction,
        c.protection_profile == ProtectionProfileKind::PqSimpleV1,
        c.root@ == simple_root(
            config.stream_id,
            config.direction,
            shared_secret@,
            transcript_hash2(client_hello_frame@, server_hello_frame@),
        ),
        c.client_id@ == "pq_simple_v1_client"@,
        c.server_id@ == server_hello.server_id@,
        c.client_nonce == client_nonce,
        c.server_nonce == server_hello.server_nonce,
{
    let transcript = transcript_hash_of2(client_hello_frame, server_hello_frame);
    let root = derive_pq_simple_root(config.stream_id, config.direction, &shared_secret, &transcript);
    BootstrapCompleted {
        stream_id: config.stream_id,
        direction: config.direction,
        protection_profile: ProtectionProfileKind::PqSimpleV1,
        root,
        client_id: String::from_str("pq_simple_v1_client"),
        server_id: copy_string(&server_hello.server_id),
        client_nonce,
        server_nonce: server_hello.server_nonce,
    }
}

/// The client's state in the simple profile between its hello and the
/// server's.
#[derive(Debug, Clone)]
pub struct SimpleClientBootstrapState {
    pub config: BootstrapClientConfig,
    pub client_nonce: [u8; 16],
    pub client_kem_seed: [u8; 64],
}

impl SimpleClientBootstrapState {
    /// Starts the simple handshake: the hello carries the stream, the nonce
    /// and the public key of the KEM seed.
    pub fn start(config: BootstrapClientConfig, client_nonce: [u8; 16], client_kem_seed: [u8; 64]) -> (r: (
        SimpleClientBootstrapState,
        SimpleClientHello,
    ))
        ensures
            r.0.config == config,
            r.0.client_nonce == client_nonce,
            r.0.client_kem_seed == client_kem_seed,
            r.1.stream_id == config.stream_id,
            r.1.client_nonce == client_nonce,
            r.1.client_ephemeral_kem_public_key@ == mlkem768_public_key_of(client_kem_seed@),
    {
        let hello = SimpleClientHello {
            stream_id: config.stream_id,
            client_nonce,
            client_ephemeral_kem_public_key: mlkem768_public_key(client_kem_seed),
        };
        (SimpleClientBootstrapState { config, client_nonce, client_kem_seed }, hello)
    }

    /// Takes in the server hello: checks the message kind, the stream and
    /// the ciphertext's length, decapsulates, and completes the handshake
    /// with the root over the two frames (the encoded client hello and
    /// server hello).
    pub fn handle_server_hello(&self, message: BootstrapMessage, client_hello_frame: &[u8], server_hello_frame: &[u8]) -> (r: Result<BootstrapCompleted, BootstrapError>)
        ensures
            match message {
                BootstrapMessage::SimpleServerHello(h) => if h.stream_id != self.config.stream_id {
                    r == Err::<BootstrapCompleted, BootstrapError>(
                        BootstrapError::UnexpectedStreamId { expected: self.config.stream_id, actual: h.stream_id },
                    )
                } else if h.encapsulated_shared_secret@.len() != MLKEM768_CIPHERTEXT_LEN {
                    r == Err::<BootstrapCompleted, BootstrapError>(BootstrapError::InvalidKemCiphertext)
                } else {
                    &&& r is Ok
                    &&& r->Ok_0.stream_id == self.config.stream_id
                    &&& r->Ok_0.direction == self.config.direction
                    &&& r->Ok_0.protection_profile == ProtectionProfileKind::PqSimpleV1
                    &&& r->Ok_0.root@ == simple_root(
                        self.config.stream_id,
                        self.config.direction,
                        mlkem768_decapsulated(self.client_kem_seed@, h.encapsulated_shared_secret@),
                        transcript_hash2(client_hello_frame@, server_hello_frame@),
                    )
                    &&& r->Ok_0.client_id@ == "pq_simple_v1_client"@
                    &&& r->Ok_0.server_id@ == h.server_id@
                    &&& r->Ok_0.client_nonce == self.client_nonce
                    &&& r->Ok_0.server_nonce == h.server_nonce
                },
                _ => r == Err::<BootstrapCompleted, BootstrapError>(
                    BootstrapError::UnexpectedMessageKind {
                        expected: BootstrapMessageKind::SimpleServerHello,
                        actual: message_kind(message),
                    },
                ),
            },
    {
        let h = match message {
            BootstrapMessage::SimpleServerHello(h) => h,
            _ => {
                return Err(BootstrapError::UnexpectedMessageKind {
                    expected: BootstrapMessageKind::SimpleServerHello,
                    actual: message.kind(),
                });
            },
        };
        if h.stream_id.0 != self.config.stream_id.0 {
            return Err(BootstrapError::UnexpectedStreamId { expected: self.config.stream_id, actual: h.stream_id });
        }
        if !mlkem768_ciphertext_fits(h.encapsulated_shared_secret.as_slice()) {
            return Err(BootstrapError::InvalidKemCiphertext);
        }
        let shared = mlkem768_decapsulate(self.client_kem_seed, h.encapsulated_shared_secret.as_slice());
        let transcript = transcript_hash_of2(client_hello_frame, server_hello_frame);
        let root = derive_pq_simple_root(self.config.stream_id, self.config.direction, &shared, &transcript);
        Ok(BootstrapCompleted {
            stream_id: self.config.stream_id,
            direction: self.config.direction,
            protection_profile: ProtectionProfileKind::PqSimpleV1,
            root,
            client_id: String::from_str("pq_simple_v1_client"),
            server_id: h.server_id,
            client_nonce: self.client_nonce,
            server_nonce: h.server_nonce,
        })
    }
}

} // verus!
