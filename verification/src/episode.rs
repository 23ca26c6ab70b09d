//! Episodes and schemas: what the memory saw in sequence, the sparse traces
//! it keeps with pattern separation, what it predicts next, and the schemas
//! it abstracts from them.

use vstd::prelude::*;
use crate::assembly::AssemblyId;
use crate::chpmt::{
    ContextHash, ControllerRouteFamily, LagBucket, MemoryPlane, ObjectKind, ObjectLifecycleMeta,
    PrecisionBand, SparseCue, cue_overlap,
};
use crate::index::{bytes_less, bytes_lex_lt, text_bytes};
use crate::keyed::U64Map;
use crate::num::{popcount, rotl64, rotate_left_u64, sat_add_u32, sat_mul_u32, sat_sub_u32, saturating_mul_u32};
use crate::source::SourceKind;
use crate::transform::TransformId;
use crate::wire::{push_u64_le, u64_le};

verus! {

#[derive(Debug, Clone, Copy, PartialEq, Eq, PartialOrd, Ord, Hash, Default, Structural)]
pub struct SchemaId(pub u64);

#[derive(Debug, Clone, Copy, PartialEq, Eq, PartialOrd, Ord, Hash, Default, Structural)]
pub struct TransitionCount(pub u32);

#[derive(Debug, Clone, Copy, PartialEq, Eq, PartialOrd, Ord, Hash, Default, Structural)]
pub struct BranchRank(pub u16);

#[derive(Debug, Clone, Copy, PartialEq, Eq, PartialOrd, Ord, Hash, Default, Structural)]
pub struct EpisodeNodeId(pub u64);

#[derive(Debug, Clone, Copy, PartialEq, Eq, PartialOrd, Ord, Hash, Default, Structural)]
pub struct EpisodeEdgeId(pub u64);

/// An object an episode refers to.
#[derive(Debug, Clone, PartialEq, Eq, Default)]
pub struct EpisodeObjectRef {
    pub object_kind: ObjectKind,
    pub object_id: String,
}

/// `prefix` followed by the decimal digits of `n`.
pub open spec fn prefixed_decimal(prefix: Seq<char>, n: u64) -> Seq<char> {
    prefix + crate::index::decimal(n as nat)
}

/// std's `format!` of a text followed by a `u64` in decimal (its `Display`
/// form: no sign, padding or grouping).
#[verifier::external_body]
fn format_prefixed_id(prefix: &str, n: u64) -> (r: String)
    ensures
        r@ == prefixed_decimal(prefix@, n),
{
    format!("{}{}", prefix, n)
}

impl EpisodeObjectRef {
    pub fn assembly(id: AssemblyId) -> (r: Self)
        ensures
            r.object_kind == ObjectKind::Assembly,
            r.object_id@ == prefixed_decimal("assembly:"@, id.0),
    {
        EpisodeObjectRef { object_kind: ObjectKind::Assembly, object_id: format_prefixed_id("assembly:", id.0) }
    }

    pub fn transform(id: TransformId) -> (r: Self)
        ensures
            r.object_kind == ObjectKind::Transform,
            r.object_id@ == prefixed_decimal("transform:"@, id.0),
    {
        EpisodeObjectRef { object_kind: ObjectKind::Transform, object_id: format_prefixed_id("transform:", id.0) }
    }

    pub fn schema(object_id: String) -> (r: Self)
        ensures
            r.object_kind == ObjectKind::Schema,
            r.object_id@ == object_id@,
    {
        EpisodeObjectRef { object_kind: ObjectKind::Schema, object_id }
    }
}

/// Two references name the same object.
pub open spec fn same_ref(a: EpisodeObjectRef, b: EpisodeObjectRef) -> bool {
    a.object_kind == b.object_kind && a.object_id@ == b.object_id@
}

pub(crate) fn refs_equal(a: &EpisodeObjectRef, b: &EpisodeObjectRef) -> (r: bool)
    ensures
        r == same_ref(*a, *b),
{
    if a.object_kind != b.object_kind {
        return false;
    }
    let eq = crate::compress::bytes_equal(a.object_id.as_str().as_bytes(), b.object_id.as_str().as_bytes());
    proof {
        if eq {
            vstd::utf8::encode_utf8_decode_utf8(a.object_id@);
            vstd::utf8::encode_utf8_decode_utf8(b.object_id@);
        }
    }
    eq
}

pub(crate) fn copy_ref(r: &EpisodeObjectRef) -> (c: EpisodeObjectRef)
    ensures
        same_ref(c, *r),
{
    EpisodeObjectRef { object_kind: r.object_kind, object_id: r.object_id.clone() }
}

#[derive(Debug, Clone, PartialEq, Eq, Default)]
pub struct EpisodeNode {
    pub node_id: EpisodeNodeId,
    pub plane: MemoryPlane,
    pub source_kind: SourceKind,
    pub object_ref: EpisodeObjectRef,
    pub context_hash: ContextHash,
    pub lifecycle: ObjectLifecycleMeta,
}

#[derive(Debug, Clone, Copy, PartialEq, Eq, Default, Structural)]
pub struct EpisodeEdge {
    pub edge_id: EpisodeEdgeId,
    pub from_node: EpisodeNodeId,
    pub to_node: EpisodeNodeId,
    pub lag_bucket: LagBucket,
    pub transition_count: TransitionCount,
    pub branch_rank: BranchRank,
    pub context_hash: ContextHash,
    pub lifecycle: ObjectLifecycleMeta,
}

#[derive(Debug, Clone, PartialEq, Eq, Default)]
pub struct EpisodeActivationEvent {
    pub source_kind: SourceKind,
    pub object_ref: EpisodeObjectRef,
    pub cue: SparseCue,
    pub context_hash: ContextHash,
    pub tick: u64,
    pub success: bool,
}

#[derive(Debug, Clone, Copy, PartialEq, Eq, Default, Structural)]
pub struct EpisodeObjectTransition {
    pub from_kind: ObjectKind,
    pub to_kind: ObjectKind,
}

/// Where a trace is looked up: its kinds, cue and context.
#[derive(Debug, Clone, Copy, PartialEq, Eq, Default, Structural)]
pub struct EpisodeTraceLookupKey {
    pub source_kind: SourceKind,
    pub object_kind: ObjectKind,
    pub cue: SparseCue,
    pub context_hash: ContextHash,
}

/// The memory plane an object of this kind lives on.
pub open spec fn plane_for_kind(kind: ObjectKind) -> MemoryPlane {
    match kind {
        ObjectKind::Assembly => MemoryPlane::Assembly,
        ObjectKind::Transform => MemoryPlane::Transform,
        ObjectKind::Schema => MemoryPlane::Schema,
        ObjectKind::EpisodeHint => MemoryPlane::Episode,
        ObjectKind::ReplayHint => MemoryPlane::Episode,
        _ => MemoryPlane::AtomSubstrate,
    }
}

pub fn plane_for_object_kind(kind: ObjectKind) -> (p: MemoryPlane)
    ensures
        p == plane_for_kind(kind),
{
    match kind {
        ObjectKind::Assembly => MemoryPlane::Assembly,
        ObjectKind::Transform => MemoryPlane::Transform,
        ObjectKind::Schema => MemoryPlane::Schema,
        ObjectKind::EpisodeHint => MemoryPlane::Episode,
        ObjectKind::ReplayHint => MemoryPlane::Episode,
        _ => MemoryPlane::AtomSubstrate,
    }
}

/// The little-endian bytes of the cue's five bit sets.
pub open spec fn cue_bytes(cue: SparseCue) -> Seq<u8> {
    u64_le(cue.family_bits) + u64_le(cue.role_bits) + u64_le(cue.delimiter_bits) + u64_le(cue.length_bucket_bits) + u64_le(cue.temporal_bits)
}

/// The context hash of a cue and an object: the cue's fingerprint, the
/// object id's fingerprint rotated by 7, and the kind code in the top bits.
pub open spec fn context_hash_of(cue: SparseCue, r: EpisodeObjectRef, clmul: bool) -> u64 {
    crate::kernels::gf2_fingerprint_spec(cue_bytes(cue), clmul) ^ rotl64(crate::kernels::gf2_fingerprint_spec(text_bytes(r.object_id), clmul), 7)
        ^ ((r.object_kind.code_spec() as u64) << 48u64)
}

/// The context hash of a cue and an object; `clmul_available` says whether
/// the fingerprint takes the CPU's carry-less multiply path.
pub fn derive_context_hash(cue: SparseCue, object_ref: &EpisodeObjectRef, clmul_available: bool) -> (h: ContextHash)
    ensures
        h.0 == context_hash_of(cue, *object_ref, clmul_available),
{
    let mut bytes: Vec<u8> = Vec::new();
    push_u64_le(&mut bytes, cue.family_bits);
    push_u64_le(&mut bytes, cue.role_bits);
    push_u64_le(&mut bytes, cue.delimiter_bits);
    push_u64_le(&mut bytes, cue.length_bucket_bits);
    push_u64_le(&mut bytes, cue.temporal_bits);
    assert(bytes@ =~= cue_bytes(cue));
    let cue_hash = crate::kernels::gf2_fingerprint(bytes.as_slice(), clmul_available);
    let object_hash = crate::kernels::gf2_fingerprint(object_ref.object_id.as_str().as_bytes(), clmul_available);
    ContextHash(cue_hash ^ rotate_left_u64(object_hash, 7) ^ ((object_ref.object_kind.code() as u64) << 48u64))
}

// ---------------------------------------------------------------------------
// Route wins of a trace
// ---------------------------------------------------------------------------

#[derive(Debug, Clone, PartialEq, Eq)]
pub struct EpisodeRouteWinTrace {
    pub success_by_route: U64Map<u32>,
    pub failure_by_route: U64Map<u32>,
    pub total_successes: u32,
    pub total_failures: u32,
    pub last_route: Option<ControllerRouteFamily>,
}

impl EpisodeRouteWinTrace {
    pub open spec fn wf(&self) -> bool {
        self.success_by_route.wf() && self.failure_by_route.wf()
    }

    pub fn new() -> (t: Self)
        ensures
            t.wf(),
            t.success_by_route.map() == Map::<u64, u32>::empty(),
            t.failure_by_route.map() == Map::<u64, u32>::empty(),
            t.total_successes == 0,
            t.total_failures == 0,
            t.last_route is None,
    {
        EpisodeRouteWinTrace {
            success_by_route: U64Map::new(),
            failure_by_route: U64Map::new(),
            total_successes: 0,
            total_failures: 0,
            last_route: None,
        }
    }

    /// The count recorded for `route` in `m`, zero when absent.
    pub open spec fn count_in(m: Map<u64, u32>, route: ControllerRouteFamily) -> u32 {
        if m.contains_key(route.code_spec() as u64) { m[route.code_spec() as u64] } else { 0 }
    }

    /// `n` is `o` with an outcome of `route` recorded: a success counts in
    /// the route's and the total successes, a failure in the failures, both
    /// saturating, and the route becomes the last one; `first_win` says the
    /// success was the route's first.
    pub open spec fn recorded(o: Self, n: Self, route: ControllerRouteFamily, success: bool, first_win: bool) -> bool {
        &&& n.last_route == Some(route)
        &&& success ==> {
            &&& first_win == (Self::count_in(o.success_by_route.map(), route) == 0)
            &&& n.success_by_route.map() == o.success_by_route.map().insert(
                route.code_spec() as u64,
                sat_add_u32(Self::count_in(o.success_by_route.map(), route), 1),
            )
            &&& n.failure_by_route == o.failure_by_route
            &&& n.total_successes == sat_add_u32(o.total_successes, 1)
            &&& n.total_failures == o.total_failures
        }
        &&& !success ==> {
            &&& !first_win
            &&& n.failure_by_route.map() == o.failure_by_route.map().insert(
                route.code_spec() as u64,
                sat_add_u32(Self::count_in(o.failure_by_route.map(), route), 1),
            )
            &&& n.success_by_route == o.success_by_route
            &&& n.total_failures == sat_add_u32(o.total_failures, 1)
            &&& n.total_successes == o.total_successes
        }
    }

    /// Records an outcome of `route`; says whether it is the route's first win.
    pub fn record(&mut self, route_family: ControllerRouteFamily, success: bool) -> (first_win: bool)
        requires
            old(self).wf(),
        ensures
            final(self).wf(),
            Self::recorded(*old(self), *final(self), route_family, success, first_win),
    {
        self.last_route = Some(route_family);
        let tag = route_family.code() as u64;
        if success {
            let current: u32 = match self.success_by_route.get(tag) {
                Some(c) => *c,
                None => 0,
            };
            self.success_by_route.insert(tag, current.saturating_add(1));
            self.total_successes = self.total_successes.saturating_add(1);
            current == 0
        } else {
            let current: u32 = match self.failure_by_route.get(tag) {
                Some(c) => *c,
                None => 0,
            };
            self.failure_by_route.insert(tag, current.saturating_add(1));
            self.total_failures = self.total_failures.saturating_add(1);
            false
        }
    }

    pub open spec fn support_spec(&self) -> u32 {
        sat_sub_u32(sat_mul_u32(self.total_successes, 8), sat_mul_u32(self.total_failures, 3))
    }

    pub fn support_score(&self) -> (s: u32)
        ensures
            s == self.support_spec(),
    {
        saturating_mul_u32(self.total_successes, 8).saturating_sub(saturating_mul_u32(self.total_failures, 3))
    }
}

// ---------------------------------------------------------------------------
// Trace scoring helpers
// ---------------------------------------------------------------------------

/// The salience a trace starts with: the cue's set bits (all but temporal),
/// 16 for a success or 4 otherwise, and the kind codes of its transition,
/// less its lag bucket.
pub open spec fn initial_salience_spec(cue: SparseCue, success: bool, lag: LagBucket, t: EpisodeObjectTransition) -> u32 {
    let mass = (popcount(cue.family_bits) + popcount(cue.role_bits) + popcount(cue.delimiter_bits) + popcount(cue.length_bucket_bits)) as u32;
    sat_sub_u32(
        sat_add_u32(sat_add_u32(sat_add_u32(mass, if success { 16 } else { 4 }), t.from_kind.code_spec() as u32), t.to_kind.code_spec() as u32),
        lag.0 as u32,
    )
}

fn initial_trace_salience(cue: SparseCue, success: bool, lag_bucket: LagBucket, transition: EpisodeObjectTransition) -> (s: u32)
    ensures
        s == initial_salience_spec(cue, success, lag_bucket, transition),
{
    let mass = crate::num::count_ones_u64(cue.family_bits) + crate::num::count_ones_u64(cue.role_bits)
        + crate::num::count_ones_u64(cue.delimiter_bits) + crate::num::count_ones_u64(cue.length_bucket_bits);
    let success_mass: u32 = if success { 16 } else { 4 };
    mass.saturating_add(success_mass).saturating_add(transition.from_kind.code() as u32).saturating_add(
        transition.to_kind.code() as u32,
    ).saturating_sub(lag_bucket.0 as u32)
}

pub open spec fn recency_score_spec(last_tick: u64, trace_tick: u64) -> u32 {
    if last_tick == 0 || trace_tick == 0 {
        0
    } else {
        let d = if last_tick < trace_tick { 0 } else { last_tick - trace_tick };
        (64 - if d < 63 { d } else { 63 }) as u32
    }
}

pub(crate) fn trace_recency_score(last_tick: u64, trace_tick: u64) -> (s: u32)
    ensures
        s == recency_score_spec(last_tick, trace_tick),
{
    if last_tick == 0 || trace_tick == 0 {
        return 0;
    }
    let d = last_tick.saturating_sub(trace_tick);
    let delta: u32 = if d < 63 { d as u32 } else { 63 };
    64 - delta
}

pub open spec fn transition_match_spec(previous_kind: Option<ObjectKind>, t: EpisodeObjectTransition) -> u32 {
    match previous_kind {
        Some(k) => if k == t.from_kind { 24 } else if k == t.to_kind { 8 } else { 0 },
        None => 4,
    }
}

pub(crate) fn trace_transition_match(previous_kind: Option<ObjectKind>, t: EpisodeObjectTransition) -> (s: u32)
    ensures
        s == transition_match_spec(previous_kind, t),
{
    match previous_kind {
        Some(k) => if k == t.from_kind { 24 } else if k == t.to_kind { 8 } else { 0 },
        None => 4,
    }
}

pub open spec fn lag_match_spec(observed: LagBucket, lag: LagBucket) -> u32 {
    if observed == lag {
        16
    } else {
        let delta = if observed.0 < lag.0 { lag.0 - observed.0 } else { observed.0 - lag.0 };
        sat_sub_u32(8, sat_mul_u32(delta as u32, 2))
    }
}

pub(crate) fn trace_lag_match(observed: LagBucket, lag: LagBucket) -> (s: u32)
    ensures
        s == lag_match_spec(observed, lag),
{
    if observed.0 == lag.0 {
        16
    } else {
        let delta: u32 = if observed.0 < lag.0 { (lag.0 - observed.0) as u32 } else { (observed.0 - lag.0) as u32 };
        8u32.saturating_sub(saturating_mul_u32(delta, 2))
    }
}

// ---------------------------------------------------------------------------
// Sparse traces with pattern separation
// ---------------------------------------------------------------------------

#[derive(Debug, Clone, PartialEq, Eq)]
pub struct SparseEpisodeTrace {
    pub trace_id: u64,
    pub lookup_key: EpisodeTraceLookupKey,
    pub family_partition: u64,
    pub collision_slot: u16,
    pub source_kind: SourceKind,
    pub cue: SparseCue,
    pub cue_bits: u64,
    pub role_bits: u64,
    pub boundary_bits: u64,
    pub lag_bucket: LagBucket,
    pub transition: EpisodeObjectTransition,
    pub object_ref: EpisodeObjectRef,
    pub support_count: u32,
    pub recency_tick: u64,
    pub salience: u32,
    pub route_wins: EpisodeRouteWinTrace,
}

/// The lag bucket of the distance from `prev` to `e`.
pub open spec fn lag_between(e: EpisodeActivationEvent, prev: EpisodeActivationEvent) -> LagBucket {
    LagBucket(LagBucket::from_distance_spec((if e.tick < prev.tick { 0 } else { e.tick - prev.tick }) as u32))
}

pub(crate) fn lag_between_exec(e: &EpisodeActivationEvent, prev: &EpisodeActivationEvent) -> (l: LagBucket)
    ensures
        l == lag_between(*e, *prev),
{
    LagBucket::from_distance(e.tick.saturating_sub(prev.tick) as u32)
}

/// The partition a trace falls in: its cue family, source kind and kinds
/// of the transition into it, mixed by rotations.
pub open spec fn family_partition_spec(e: EpisodeActivationEvent, prev: Option<EpisodeActivationEvent>) -> u64 {
    let from_kind: u64 = match prev {
        Some(p) => p.object_ref.object_kind.code_spec() as u64,
        None => e.object_ref.object_kind.code_spec() as u64,
    };
    e.cue.family_bits ^ rotl64(e.source_kind.family_bits_spec(), 19) ^ rotl64(from_kind, 43) ^ rotl64(e.object_ref.object_kind.code_spec() as u64, 51)
}

fn trace_family_partition(e: &EpisodeActivationEvent, prev: Option<&EpisodeActivationEvent>) -> (fp: u64)
    ensures
        fp == family_partition_spec(*e, match prev { Some(p) => Some(*p), None => None }),
{
    let from_kind: u64 = match prev {
        Some(p) => p.object_ref.object_kind.code() as u64,
        None => e.object_ref.object_kind.code() as u64,
    };
    e.cue.family_bits ^ rotate_left_u64(e.source_kind.family_bits(), 19) ^ rotate_left_u64(from_kind, 43) ^ rotate_left_u64(
        e.object_ref.object_kind.code() as u64,
        51,
    )
}

/// The trace a first activation creates.
pub open spec fn is_fresh_trace(t: SparseEpisodeTrace, id: u64, e: EpisodeActivationEvent, prev: Option<EpisodeActivationEvent>, fp: u64, slot: u16) -> bool {
    let lag = match prev {
        Some(p) => lag_between(e, p),
        None => LagBucket(0),
    };
    let transition = EpisodeObjectTransition {
        from_kind: match prev {
            Some(p) => p.object_ref.object_kind,
            None => e.object_ref.object_kind,
        },
        to_kind: e.object_ref.object_kind,
    };
    &&& t.trace_id == id
    &&& t.lookup_key == (EpisodeTraceLookupKey { source_kind: e.source_kind, object_kind: e.object_ref.object_kind, cue: e.cue, context_hash: e.context_hash })
    &&& t.family_partition == fp
    &&& t.collision_slot == slot
    &&& t.source_kind == e.source_kind
    &&& t.cue == e.cue
    &&& t.cue_bits == e.cue.family_bits
    &&& t.role_bits == e.cue.role_bits
    &&& t.boundary_bits == e.cue.delimiter_bits
    &&& t.lag_bucket == lag
    &&& t.transition == transition
    &&& same_ref(t.object_ref, e.object_ref)
    &&& t.support_count == 1
    &&& t.recency_tick == e.tick
    &&& t.salience == initial_salience_spec(e.cue, e.success, lag, transition)
    &&& t.route_wins.wf()
    &&& t.route_wins.success_by_route.map() == Map::<u64, u32>::empty()
    &&& t.route_wins.failure_by_route.map() == Map::<u64, u32>::empty()
    &&& t.route_wins.total_successes == 0
    &&& t.route_wins.total_failures == 0
    &&& t.route_wins.last_route is None
}

pub open spec fn opt_event(prev: Option<&EpisodeActivationEvent>) -> Option<EpisodeActivationEvent> {
    match prev {
        Some(p) => Some(*p),
        None => None,
    }
}

/// A trace after another activation of its object.
pub open spec fn absorbed_spec(t: SparseEpisodeTrace, e: EpisodeActivationEvent, prev: Option<EpisodeActivationEvent>) -> SparseEpisodeTrace {
    let lag = match prev {
        Some(p) => lag_between(e, p),
        None => t.lag_bucket,
    };
    let transition = EpisodeObjectTransition {
        from_kind: match prev {
            Some(p) => p.object_ref.object_kind,
            None => t.transition.from_kind,
        },
        to_kind: e.object_ref.object_kind,
    };
    let support = sat_add_u32(t.support_count, 1);
    let raised = sat_add_u32(t.salience, initial_salience_spec(e.cue, e.success, lag, transition) / 2);
    SparseEpisodeTrace {
        cue: e.cue,
        lookup_key: EpisodeTraceLookupKey { cue: e.cue, context_hash: e.context_hash, ..t.lookup_key },
        cue_bits: e.cue.family_bits,
        role_bits: e.cue.role_bits,
        boundary_bits: e.cue.delimiter_bits,
        lag_bucket: lag,
        transition,
        support_count: support,
        recency_tick: if t.recency_tick >= e.tick { t.recency_tick } else { e.tick },
        salience: if raised >= support { raised } else { support },
        ..t
    }
}

impl SparseEpisodeTrace {
    fn fresh(trace_id: u64, e: &EpisodeActivationEvent, prev: Option<&EpisodeActivationEvent>, family_partition: u64, collision_slot: u16) -> (t: Self)
        ensures
            is_fresh_trace(t, trace_id, *e, opt_event(prev), family_partition, collision_slot),
    {
        let lag_bucket = match prev {
            Some(p) => lag_between_exec(e, p),
            None => LagBucket(0),
        };
        let transition = EpisodeObjectTransition {
            from_kind: match prev {
                Some(p) => p.object_ref.object_kind,
                None => e.object_ref.object_kind,
            },
            to_kind: e.object_ref.object_kind,
        };
        let salience = initial_trace_salience(e.cue, e.success, lag_bucket, transition);
        SparseEpisodeTrace {
            trace_id,
            lookup_key: EpisodeTraceLookupKey {
                source_kind: e.source_kind,
                object_kind: e.object_ref.object_kind,
                cue: e.cue,
                context_hash: e.context_hash,
            },
            family_partition,
            collision_slot,
            source_kind: e.source_kind,
            cue: e.cue,
            cue_bits: e.cue.family_bits,
            role_bits: e.cue.role_bits,
            boundary_bits: e.cue.delimiter_bits,
            lag_bucket,
            transition,
            object_ref: copy_ref(&e.object_ref),
            support_count: 1,
            recency_tick: e.tick,
            salience,
            route_wins: EpisodeRouteWinTrace::new(),
        }
    }

    fn absorb_activation(&mut self, e: &EpisodeActivationEvent, prev: Option<&EpisodeActivationEvent>)
        ensures
            *final(self) == absorbed_spec(*old(self), *e, opt_event(prev)),
    {
        self.cue = e.cue;
        self.lookup_key.cue = e.cue;
        self.lookup_key.context_hash = e.context_hash;
        self.cue_bits = e.cue.family_bits;
        self.role_bits = e.cue.role_bits;
        self.boundary_bits = e.cue.delimiter_bits;
        match prev {
            Some(p) => {
                self.lag_bucket = lag_between_exec(e, p);
                self.transition = EpisodeObjectTransition { from_kind: p.object_ref.object_kind, to_kind: e.object_ref.object_kind };
            },
            None => {
                self.transition = EpisodeObjectTransition { from_kind: self.transition.from_kind, to_kind: e.object_ref.object_kind };
            },
        }
        self.support_count = self.support_count.saturating_add(1);
        if e.tick > self.recency_tick {
            self.recency_tick = e.tick;
        }
        let raised = self.salience.saturating_add(initial_trace_salience(e.cue, e.success, self.lag_bucket, self.transition) / 2);
        self.salience = if raised >= self.support_count { raised } else { self.support_count };
    }
}

/// The collision seed of a trace.
pub open spec fn collision_seed_spec(t: SparseEpisodeTrace) -> u16 {
    let s0 = vstd::wrapping::u64_specs::wrapping_add(t.lookup_key.context_hash.0 ^ t.cue.family_bits ^ rotl64(t.role_bits, 7), rotl64(t.boundary_bits, 13));
    let s1 = s0 ^ ((t.transition.from_kind.code_spec() as u64) << 8u64);
    let s2 = s1 ^ ((t.transition.to_kind.code_spec() as u64) << 16u64);
    vstd::wrapping::u16_specs::wrapping_mul(s2 as u16, 31)
}

fn trace_collision_seed(t: &SparseEpisodeTrace) -> (s: u16)
    ensures
        s == collision_seed_spec(*t),
{
    let mut seed = (t.lookup_key.context_hash.0 ^ t.cue.family_bits ^ rotate_left_u64(t.role_bits, 7)).wrapping_add(rotate_left_u64(t.boundary_bits, 13));
    seed = seed ^ ((t.transition.from_kind.code() as u64) << 8u64);
    seed = seed ^ ((t.transition.to_kind.code() as u64) << 16u64);
    (seed as u16).wrapping_mul(31)
}

/// Two traces nearly collide: same partition, at least eight shared cue
/// bits, different objects.
pub open spec fn near_collision_spec(l: SparseEpisodeTrace, r: SparseEpisodeTrace) -> bool {
    l.family_partition == r.family_partition && cue_overlap(l.cue, r.cue) >= 8 && !same_ref(l.object_ref, r.object_ref)
}

fn trace_near_collision(l: &SparseEpisodeTrace, r: &SparseEpisodeTrace) -> (b: bool)
    ensures
        b == near_collision_spec(*l, *r),
{
    l.family_partition == r.family_partition && l.cue.overlap_score(r.cue) >= 8 && !refs_equal(&l.object_ref, &r.object_ref)
}

/// Whether some trace holds `slot` in the candidate's partition and nearly
/// collides with it.
pub open spec fn slot_occupied(traces: Seq<SparseEpisodeTrace>, c: SparseEpisodeTrace, slot: u16) -> bool {
    exists|i: int| 0 <= i < traces.len() && (#[trigger] traces[i]).family_partition == c.family_partition && traces[i].collision_slot == slot
        && near_collision_spec(traces[i], c)
}

pub open spec fn slot_limit(max_slots: u16) -> u16 {
    if max_slots == 0 { 1 } else { max_slots }
}

/// The first free slot from the seed onward (wrapping), or the seed.
pub open spec fn free_slot_from(traces: Seq<SparseEpisodeTrace>, c: SparseEpisodeTrace, limit: u16, seed: u16, salt: nat) -> u16
    decreases limit - salt,
{
    if salt >= limit {
        seed
    } else {
        let slot = (vstd::wrapping::u16_specs::wrapping_add(seed, salt as u16) % limit) as u16;
        if !slot_occupied(traces, c, slot) {
            slot
        } else {
            free_slot_from(traces, c, limit, seed, salt + 1)
        }
    }
}

pub open spec fn collision_slot_spec(traces: Seq<SparseEpisodeTrace>, c: SparseEpisodeTrace, max_slots: u16) -> u16 {
    let limit = slot_limit(max_slots);
    free_slot_from(traces, c, limit, (collision_seed_spec(c) % limit) as u16, 0)
}

fn slot_taken(traces: &Vec<SparseEpisodeTrace>, c: &SparseEpisodeTrace, slot: u16) -> (b: bool)
    ensures
        b == slot_occupied(traces@, *c, slot),
{
    let mut i: usize = 0;
    while i < traces.len()
        invariant
            i <= traces@.len(),
            forall|j: int| 0 <= j < i ==> !((#[trigger] traces@[j]).family_partition == c.family_partition && traces@[j].collision_slot == slot
                && near_collision_spec(traces@[j], *c)),
        decreases traces@.len() - i,
    {
        let t = &traces[i];
        if t.family_partition == c.family_partition && t.collision_slot == slot && trace_near_collision(t, c) {
            return true;
        }
        i = i + 1;
    }
    false
}

fn diversified_collision_slot(traces: &Vec<SparseEpisodeTrace>, c: &SparseEpisodeTrace, max_slots: u16) -> (s: u16)
    ensures
        s == collision_slot_spec(traces@, *c, max_slots),
{
    let limit: u16 = if max_slots == 0 { 1 } else { max_slots };
    let seed = trace_collision_seed(c) % limit;
    let mut salt: u16 = 0;
    while salt < limit
        invariant
            limit == slot_limit(max_slots),
            seed == (collision_seed_spec(*c) % limit) as u16,
            salt <= limit,
            collision_slot_spec(traces@, *c, max_slots) == free_slot_from(traces@, *c, limit, seed, salt as nat),
        decreases limit - salt,
    {
        let slot = seed.wrapping_add(salt) % limit;
        if !slot_taken(traces, c, slot) {
            return slot;
        }
        salt = salt + 1;
    }
    seed
}

// ---------------------------------------------------------------------------
// The hippocampal trace store
// ---------------------------------------------------------------------------

#[derive(Debug, Clone, PartialEq, Eq)]
pub struct HippocampalShockMemory {
    pub max_traces: usize,
    pub max_collision_slots: u16,
    pub traces: Vec<SparseEpisodeTrace>,
}

impl Default for HippocampalShockMemory {
    fn default() -> (m: Self)
        ensures
            m.max_traces == 256,
            m.max_collision_slots == 32,
            m.traces@.len() == 0,
    {
        HippocampalShockMemory { max_traces: 256, max_collision_slots: 32, traces: Vec::new() }
    }
}

/// `a` ranks strictly before `b` when traces are trimmed: more salience,
/// then (when `by_support`) more support, then more recent.
pub open spec fn trace_before(a: SparseEpisodeTrace, b: SparseEpisodeTrace, by_support: bool) -> bool {
    ||| a.salience > b.salience
    ||| a.salience == b.salience && by_support && a.support_count > b.support_count
    ||| a.salience == b.salience && (!by_support || a.support_count == b.support_count) && a.recency_tick > b.recency_tick
}

pub open spec fn trace_insert_pos(s: Seq<SparseEpisodeTrace>, x: SparseEpisodeTrace, by_support: bool) -> nat
    decreases s.len(),
{
    if s.len() == 0 {
        0
    } else if trace_before(x, s[0], by_support) {
        0
    } else {
        1 + trace_insert_pos(s.drop_first(), x, by_support)
    }
}

/// The traces ranked, equal ones in their original order.
pub open spec fn traces_ranked(s: Seq<SparseEpisodeTrace>, by_support: bool) -> Seq<SparseEpisodeTrace>
    decreases s.len(),
{
    if s.len() == 0 {
        s
    } else {
        let t = traces_ranked(s.drop_last(), by_support);
        t.insert(trace_insert_pos(t, s.last(), by_support) as int, s.last())
    }
}

proof fn lemma_trace_insert_pos_bound(s: Seq<SparseEpisodeTrace>, x: SparseEpisodeTrace, by_support: bool)
    ensures
        trace_insert_pos(s, x, by_support) <= s.len(),
    decreases s.len(),
{
    if s.len() > 0 {
        lemma_trace_insert_pos_bound(s.drop_first(), x, by_support);
    }
}

proof fn lemma_traces_ranked_len(s: Seq<SparseEpisodeTrace>, by_support: bool)
    ensures
        traces_ranked(s, by_support).len() == s.len(),
    decreases s.len(),
{
    if s.len() > 0 {
        lemma_traces_ranked_len(s.drop_last(), by_support);
        lemma_trace_insert_pos_bound(traces_ranked(s.drop_last(), by_support), s.last(), by_support);
    }
}

fn trace_find_pos(v: &Vec<SparseEpisodeTrace>, x: &SparseEpisodeTrace, by_support: bool) -> (p: usize)
    ensures
        p == trace_insert_pos(v@, *x, by_support),
{
    let mut i: usize = 0;
    assert(v@.subrange(0, v@.len() as int) =~= v@);
    while i < v.len()
        invariant
            i <= v@.len(),
            trace_insert_pos(v@, *x, by_support) == i + trace_insert_pos(v@.subrange(i as int, v@.len() as int), *x, by_support),
        decreases v@.len() - i,
    {
        proof {
            let rest = v@.subrange(i as int, v@.len() as int);
            assert(rest[0] == v@[i as int]);
            assert(rest.drop_first() =~= v@.subrange(i + 1, v@.len() as int));
        }
        let e = &v[i];
        let before = x.salience > e.salience || (x.salience == e.salience && by_support && x.support_count > e.support_count) || (
        x.salience == e.salience && (!by_support || x.support_count == e.support_count) && x.recency_tick > e.recency_tick);
        if before {
            return i;
        }
        i = i + 1;
    }
    proof {
        assert(v@.subrange(i as int, v@.len() as int).len() == 0);
    }
    i
}

/// Ranks the traces and keeps the first `keep`.
pub(crate) fn rank_and_trim(traces: &mut Vec<SparseEpisodeTrace>, by_support: bool, keep: usize)
    ensures
        final(traces)@ == crate::catalog::first_n(traces_ranked(old(traces)@, by_support), keep as nat),
{
    let ghost src = traces@;
    let mut sorted: Vec<SparseEpisodeTrace> = Vec::new();
    let ghost mut seen: Seq<SparseEpisodeTrace> = Seq::empty();
    while traces.len() > 0
        invariant
            sorted@ == traces_ranked(seen, by_support),
            seen + traces@ == src,
        decreases traces@.len(),
    {
        let x = traces.remove(0);
        proof {
            lemma_traces_ranked_len(seen, by_support);
            lemma_trace_insert_pos_bound(sorted@, x, by_support);
        }
        let p = trace_find_pos(&sorted, &x, by_support);
        sorted.insert(p, x);
        proof {
            assert(seen.push(x).drop_last() =~= seen);
            let s0 = seen;
            seen = seen.push(x);
            assert(seen + traces@ =~= s0 + (seq![x] + traces@));
        }
    }
    assert(seen =~= src);
    sorted.truncate(keep);
    *traces = sorted;
}

/// Whether trace `t` absorbs the activation `e`: same kind, object and
/// context, and the same partition.
pub open spec fn absorbs(t: SparseEpisodeTrace, e: EpisodeActivationEvent, fp: u64) -> bool {
    &&& t.lookup_key.object_kind == e.object_ref.object_kind
    &&& same_ref(t.object_ref, e.object_ref)
    &&& t.lookup_key.context_hash == e.context_hash
    &&& t.family_partition == fp
}

/// The index of the first trace that absorbs `e`.
pub open spec fn first_absorbing(traces: Seq<SparseEpisodeTrace>, e: EpisodeActivationEvent, fp: u64, i: nat) -> Option<nat>
    decreases traces.len() - i,
{
    if i >= traces.len() {
        None
    } else if absorbs(traces[i as int], e, fp) {
        Some(i)
    } else {
        first_absorbing(traces, e, fp, i + 1)
    }
}

/// Every trace's route wins are well formed.
pub open spec fn traces_all_wf(s: Seq<SparseEpisodeTrace>) -> bool {
    forall|i: int| 0 <= i < s.len() ==> (#[trigger] s[i]).route_wins.wf()
}

/// The store `n` is the store `o` after filing the activation `e`: the
/// first trace of the same object, context and partition absorbs it;
/// otherwise a fresh trace with the next id and a separating collision slot
/// is appended, and a store over its limit is ranked (salience, support,
/// recency) and trimmed to the limit.
pub open spec fn ingested(o: HippocampalShockMemory, n: HippocampalShockMemory, e: EpisodeActivationEvent, prev: Option<EpisodeActivationEvent>) -> bool {
    let fp = family_partition_spec(e, prev);
    &&& n.max_traces == o.max_traces
    &&& n.max_collision_slots == o.max_collision_slots
    &&& first_absorbing(o.traces@, e, fp, 0) matches Some(i)
        ==> n.traces@ == o.traces@.update(i as int, absorbed_spec(o.traces@[i as int], e, prev))
    &&& first_absorbing(o.traces@, e, fp, 0) is None ==> exists|t: SparseEpisodeTrace| {
        &&& is_fresh_trace(
            t,
            (o.traces@.len() + 1) as u64,
            e,
            prev,
            fp,
            collision_slot_spec(o.traces@, t, o.max_collision_slots),
        )
        &&& n.traces@ == if o.traces@.len() + 1 > o.max_traces {
            crate::catalog::first_n(traces_ranked(o.traces@.push(t), true), o.max_traces as nat)
        } else {
            o.traces@.push(t)
        }
    }
}

/// Ranking keeps every trace's route wins well formed.
pub(crate) proof fn lemma_traces_ranked_wf(s: Seq<SparseEpisodeTrace>, by_support: bool)
    requires
        traces_all_wf(s),
    ensures
        traces_all_wf(traces_ranked(s, by_support)),
        traces_ranked(s, by_support).len() == s.len(),
    decreases s.len(),
{
    lemma_traces_ranked_len(s, by_support);
    if s.len() > 0 {
        let d = s.drop_last();
        assert(traces_all_wf(d)) by {
            assert forall|i: int| 0 <= i < d.len() implies (#[trigger] d[i]).route_wins.wf() by {
                assert(d[i] == s[i]);
            }
        }
        lemma_traces_ranked_wf(d, by_support);
        let t = traces_ranked(d, by_support);
        let p = trace_insert_pos(t, s.last(), by_support);
        lemma_trace_insert_pos_bound(t, s.last(), by_support);
        let r = t.insert(p as int, s.last());
        assert(s.last() == s[s.len() - 1]);
        assert forall|i: int| 0 <= i < r.len() implies (#[trigger] r[i]).route_wins.wf() by {
            if i < p {
                assert(r[i] == t[i]);
            } else if i > p {
                assert(r[i] == t[i - 1]);
            }
        }
    }
}

/// Keeping a prefix keeps every trace's route wins well formed.
pub(crate) proof fn lemma_first_n_wf(s: Seq<SparseEpisodeTrace>, n: nat)
    requires
        traces_all_wf(s),
    ensures
        traces_all_wf(crate::catalog::first_n(s, n)),
{
    let r = crate::catalog::first_n(s, n);
    assert forall|i: int| 0 <= i < r.len() implies (#[trigger] r[i]).route_wins.wf() by {
        assert(r[i] == s[i]);
    }
}

impl HippocampalShockMemory {
    /// Files an activation: the first trace of the same object, context and
    /// partition absorbs it; otherwise a fresh trace takes a collision slot
    /// that separates it from near collisions, and when the store is over
    /// its limit the traces are ranked and trimmed.
    pub(crate) fn ingest(&mut self, e: &EpisodeActivationEvent, prev: Option<&EpisodeActivationEvent>)
        ensures
            ingested(*old(self), *final(self), *e, opt_event(prev)),
            traces_all_wf(old(self).traces@) ==> traces_all_wf(final(self).traces@),
    {
        let fp = trace_family_partition(e, prev);
        assert(fp == family_partition_spec(*e, opt_event(prev)));
        let mut i: usize = 0;
        while i < self.traces.len()
            invariant
                i <= self.traces@.len(),
                self.traces@ == old(self).traces@,
                self.max_traces == old(self).max_traces,
                self.max_collision_slots == old(self).max_collision_slots,
                fp == family_partition_spec(*e, opt_event(prev)),
                first_absorbing(self.traces@, *e, fp, 0) == first_absorbing(self.traces@, *e, fp, i as nat),
            decreases self.traces@.len() - i,
        {
            let t = &self.traces[i];
            if t.lookup_key.object_kind == e.object_ref.object_kind && refs_equal(&t.object_ref, &e.object_ref)
                && t.lookup_key.context_hash.0 == e.context_hash.0 && t.family_partition == fp {
                assert(absorbs(old(self).traces@[i as int], *e, fp));
                assert(first_absorbing(old(self).traces@, *e, fp, 0) == Some(i as nat));
                let mut absorbed = self.traces.remove(i);
                assert(absorbed == old(self).traces@[i as int]);
                absorbed.absorb_activation(e, prev);
                let ghost a = absorbed;
                assert(a == absorbed_spec(old(self).traces@[i as int], *e, opt_event(prev)));
                self.traces.insert(i, absorbed);
                assert(self.traces@ =~= old(self).traces@.update(i as int, a));
                proof {
                    if traces_all_wf(old(self).traces@) {
                        assert forall|k: int| 0 <= k < self.traces@.len() implies (#[trigger] self.traces@[k]).route_wins.wf() by {
                            if k != i {
                                assert(self.traces@[k] == old(self).traces@[k]);
                            } else {
                                assert(old(self).traces@[k].route_wins.wf());
                            }
                        }
                    }
                }
                return;
            }
            i = i + 1;
        }
        let n = self.traces.len() as u64;
        let id: u64 = if n < 0xffff_ffff_ffff_ffffu64 { n + 1 } else { 0 };
        proof {
            if n == 0xffff_ffff_ffff_ffffu64 {
                assert(((n as int) + 1) as u64 == 0u64) by (bit_vector)
                    requires
                        n == 0xffff_ffff_ffff_ffffu64;
            }
            assert(id == (old(self).traces@.len() + 1) as u64);
        }
        let mut candidate = SparseEpisodeTrace::fresh(id, e, prev, fp, 0);
        let slot = diversified_collision_slot(&self.traces, &candidate, self.max_collision_slots);
        candidate.collision_slot = slot;
        let ghost t = candidate;
        proof {
            let t0 = SparseEpisodeTrace { collision_slot: 0, ..t };
            assert(collision_seed_spec(t) == collision_seed_spec(t0));
            let limit = slot_limit(self.max_collision_slots);
            lemma_free_slot_same(old(self).traces@, t, t0, limit, (collision_seed_spec(t) % limit) as u16, 0);
            assert(is_fresh_trace(t, (old(self).traces@.len() + 1) as u64, *e, opt_event(prev), fp, collision_slot_spec(old(self).traces@, t, old(self).max_collision_slots)));
        }
        self.traces.push(candidate);
        proof {
            if traces_all_wf(old(self).traces@) {
                assert forall|k: int| 0 <= k < self.traces@.len() implies (#[trigger] self.traces@[k]).route_wins.wf() by {
                    if k < old(self).traces@.len() {
                        assert(self.traces@[k] == old(self).traces@[k]);
                    }
                }
            }
        }
        if self.traces.len() > self.max_traces {
            let keep = self.max_traces;
            let ghost pushed = self.traces@;
            rank_and_trim(&mut self.traces, true, keep);
            proof {
                if traces_all_wf(old(self).traces@) {
                    lemma_traces_ranked_wf(pushed, true);
                    lemma_first_n_wf(traces_ranked(pushed, true), keep as nat);
                }
            }
        }
    }
}

/// The free slot does not depend on the candidate's own slot.
proof fn lemma_free_slot_same(traces: Seq<SparseEpisodeTrace>, a: SparseEpisodeTrace, b: SparseEpisodeTrace, limit: u16, seed: u16, salt: nat)
    requires
        a.family_partition == b.family_partition,
        a.cue == b.cue,
        a.object_ref == b.object_ref,
    ensures
        free_slot_from(traces, a, limit, seed, salt) == free_slot_from(traces, b, limit, seed, salt),
    decreases limit - salt,
{
    if salt < limit {
        let slot = (vstd::wrapping::u16_specs::wrapping_add(seed, salt as u16) % limit) as u16;
        assert(slot_occupied(traces, a, slot) == slot_occupied(traces, b, slot));
        lemma_free_slot_same(traces, a, b, limit, seed, salt + 1);
    }
}

// ---------------------------------------------------------------------------
// The bounded context model
// ---------------------------------------------------------------------------

/// The decimal digits of a byte value, as ASCII bytes.
pub open spec fn code_digits(c: u8) -> Seq<u8> {
    if c < 10 {
        seq![(48 + c) as u8]
    } else if c < 100 {
        seq![(48 + c / 10) as u8, (48 + c % 10) as u8]
    } else {
        seq![(48 + c / 100) as u8, (48 + (c / 10) % 10) as u8, (48 + c % 10) as u8]
    }
}

/// The text key of an object: its kind code in decimal, a colon, its id.
pub open spec fn object_key(kind: ObjectKind, id: Seq<char>) -> Seq<u8> {
    code_digits(kind.code_spec()) + seq![0x3au8] + vstd::utf8::encode_utf8(id)
}

fn push_object_key(out: &mut Vec<u8>, r: &EpisodeObjectRef)
    ensures
        final(out)@ == old(out)@ + object_key(r.object_kind, r.object_id@),
{
    let c = r.object_kind.code();
    let ghost start = out@;
    if c < 10 {
        out.push(48 + c);
    } else if c < 100 {
        out.push(48 + c / 10);
        out.push(48 + c % 10);
    } else {
        out.push(48 + c / 100);
        out.push(48 + (c / 10) % 10);
        out.push(48 + c % 10);
    }
    out.push(0x3a);
    assert(out@ =~= start + code_digits(c) + seq![0x3au8]);
    crate::wire::append_bytes(out, r.object_id.as_str().as_bytes());
    assert(out@ =~= start + object_key(r.object_kind, r.object_id@));
}

pub(crate) fn object_key_of(r: &EpisodeObjectRef) -> (k: Vec<u8>)
    ensures
        k@ == object_key(r.object_kind, r.object_id@),
{
    let mut k: Vec<u8> = Vec::new();
    push_object_key(&mut k, r);
    assert(k@ =~= object_key(r.object_kind, r.object_id@));
    k
}

/// A count filed for an object, as values.
pub open spec fn count_view(e: (EpisodeObjectRef, u32)) -> (ObjectKind, Seq<char>, u32) {
    (e.0.object_kind, e.0.object_id@, e.1)
}

pub open spec fn counts_view(s: Seq<(EpisodeObjectRef, u32)>) -> Seq<(ObjectKind, Seq<char>, u32)> {
    s.map_values(|e: (EpisodeObjectRef, u32)| count_view(e))
}

pub open spec fn cv_key(e: (ObjectKind, Seq<char>, u32)) -> Seq<u8> {
    object_key(e.0, e.1)
}

/// The first position whose key the new key sorts strictly before.
pub open spec fn key_insert_pos(s: Seq<(ObjectKind, Seq<char>, u32)>, key: Seq<u8>) -> nat
    decreases s.len(),
{
    if s.len() == 0 {
        0
    } else if bytes_lex_lt(key, cv_key(s[0])) {
        0
    } else {
        1 + key_insert_pos(s.drop_first(), key)
    }
}

/// The index of the first entry with this key.
pub open spec fn key_index(s: Seq<(ObjectKind, Seq<char>, u32)>, key: Seq<u8>) -> Option<nat>
    decreases s.len(),
{
    if s.len() == 0 {
        None
    } else if cv_key(s[0]) == key {
        Some(0)
    } else {
        match key_index(s.drop_first(), key) {
            Some(i) => Some(i + 1),
            None => None,
        }
    }
}

/// The counts after adding `n` for the object: added to its entry, or a new
/// entry at its key's place.
pub open spec fn counts_add(s: Seq<(ObjectKind, Seq<char>, u32)>, kind: ObjectKind, id: Seq<char>, n: u32) -> Seq<(ObjectKind, Seq<char>, u32)> {
    match key_index(s, object_key(kind, id)) {
        Some(i) => s.update(i as int, (s[i as int].0, s[i as int].1, sat_add_u32(s[i as int].2, n))),
        None => s.insert(key_insert_pos(s, object_key(kind, id)) as int, (kind, id, n)),
    }
}

proof fn lemma_key_pos_bounds(s: Seq<(ObjectKind, Seq<char>, u32)>, key: Seq<u8>)
    ensures
        key_insert_pos(s, key) <= s.len(),
        key_index(s, key) matches Some(i) ==> i < s.len() && cv_key(s[i as int]) == key,
    decreases s.len(),
{
    if s.len() > 0 {
        lemma_key_pos_bounds(s.drop_first(), key);
    }
}

/// Adds `n` to the count of `r` in `counts`.
fn counts_add_exec(counts: &mut Vec<(EpisodeObjectRef, u32)>, r: &EpisodeObjectRef, n: u32)
    ensures
        counts_view(final(counts)@) == counts_add(counts_view(old(counts)@), r.object_kind, r.object_id@, n),
{
    let key = object_key_of(r);
    let ghost cv = counts_view(counts@);
    let mut i: usize = 0;
    assert(cv.skip(0) =~= cv);
    while i < counts.len()
        invariant
            i <= counts@.len(),
            cv == counts_view(counts@),
            counts@ == old(counts)@,
            key@ == object_key(r.object_kind, r.object_id@),
            key_index(cv, key@) == match key_index(cv.skip(i as int), key@) {
                Some(j) => Some((j + i) as nat),
                None => None,
            },
            forall|j: int| 0 <= j < i ==> cv_key(#[trigger] cv[j]) != key@,
        decreases counts@.len() - i,
    {
        proof {
            let rest = cv.skip(i as int);
            assert(rest[0] == cv[i as int]);
            assert(rest.drop_first() =~= cv.skip(i + 1));
        }
        let k = object_key_of(&counts[i].0);
        if crate::compress::bytes_equal(k.as_slice(), key.as_slice()) {
            let (obj, c) = counts.remove(i);
            let ghost o2 = obj;
            counts.insert(i, (obj, c.saturating_add(n)));
            proof {
                lemma_key_pos_bounds(cv, key@);
                assert(counts_view(counts@) =~= cv.update(i as int, (cv[i as int].0, cv[i as int].1, sat_add_u32(cv[i as int].2, n))));
            }
            return;
        }
        i = i + 1;
    }
    proof {
        assert(key_index(cv, key@) is None);
        lemma_key_pos_bounds(cv, key@);
    }
    let p = counts_key_pos(counts, &key);
    let c = copy_ref(r);
    counts.insert(p, (c, n));
    proof {
        assert(counts_view(counts@) =~= cv.insert(p as int, (r.object_kind, r.object_id@, n)));
    }
}

fn counts_key_pos(counts: &Vec<(EpisodeObjectRef, u32)>, key: &Vec<u8>) -> (p: usize)
    ensures
        p == key_insert_pos(counts_view(counts@), key@),
{
    let ghost cv = counts_view(counts@);
    let mut i: usize = 0;
    assert(cv.subrange(0, cv.len() as int) =~= cv);
    while i < counts.len()
        invariant
            i <= counts@.len(),
            cv == counts_view(counts@),
            key_insert_pos(cv, key@) == i + key_insert_pos(cv.subrange(i as int, cv.len() as int), key@),
        decreases counts@.len() - i,
    {
        proof {
            let rest = cv.subrange(i as int, cv.len() as int);
            assert(rest[0] == cv[i as int]);
            assert(rest.drop_first() =~= cv.subrange(i + 1, cv.len() as int));
        }
        let k = object_key_of(&counts[i].0);
        if bytes_less(key.as_slice(), k.as_slice()) {
            return i;
        }
        i = i + 1;
    }
    proof {
        assert(cv.subrange(i as int, cv.len() as int).len() == 0);
    }
    i
}

/// Predictions of which object follows a context, counted per context suffix.
#[derive(Debug, Clone, PartialEq, Eq)]
pub struct BoundedContextModel {
    pub max_order: u8,
    pub max_branches_per_context: u16,
    pub transition_counts: Vec<(Vec<u64>, Vec<(EpisodeObjectRef, u32)>)>,
}

#[derive(Debug, Clone, PartialEq, Eq, Default)]
pub struct ContinuationPrediction {
    pub context_hash: ContextHash,
    pub predicted_kind: ObjectKind,
    pub predicted_object_id: String,
    pub transition_count: TransitionCount,
    pub branch_rank: BranchRank,
    pub precision_band: PrecisionBand,
}

/// The model's counts, as values.
pub open spec fn model_view(m: Seq<(Vec<u64>, Vec<(EpisodeObjectRef, u32)>)>) -> Seq<(Seq<u64>, Seq<(ObjectKind, Seq<char>, u32)>)> {
    m.map_values(|e: (Vec<u64>, Vec<(EpisodeObjectRef, u32)>)| (e.0@, counts_view(e.1@)))
}

/// The index of the first context entry with this key.
pub open spec fn ctx_index(m: Seq<(Seq<u64>, Seq<(ObjectKind, Seq<char>, u32)>)>, key: Seq<u64>, i: nat) -> Option<nat>
    decreases m.len() - i,
{
    if i >= m.len() {
        None
    } else if m[i as int].0 == key {
        Some(i)
    } else {
        ctx_index(m, key, i + 1)
    }
}

/// The context key of the suffix of `context` from `start`.
pub open spec fn suffix_key(context: Seq<ContextHash>, start: int) -> Seq<u64> {
    context.skip(start).map_values(|h: ContextHash| h.0)
}

/// The first suffix considered: at most `max_order` hashes from the end.
pub open spec fn suffix_start(len: nat, max_order: u8) -> nat {
    if len < max_order { 0 } else { (len - max_order) as nat }
}

/// The model after one more sighting of the object after the context key.
pub open spec fn model_bump(m: Seq<(Seq<u64>, Seq<(ObjectKind, Seq<char>, u32)>)>, key: Seq<u64>, kind: ObjectKind, id: Seq<char>) -> Seq<(Seq<u64>, Seq<(ObjectKind, Seq<char>, u32)>)> {
    match ctx_index(m, key, 0) {
        Some(i) => m.update(i as int, (key, counts_add(m[i as int].1, kind, id, 1))),
        None => m.push((key, counts_add(Seq::empty(), kind, id, 1))),
    }
}

/// The model after observing the object after every suffix from `start`
/// up to `end`.
pub open spec fn model_observe(m: Seq<(Seq<u64>, Seq<(ObjectKind, Seq<char>, u32)>)>, context: Seq<ContextHash>, start: nat, end: nat, kind: ObjectKind, id: Seq<char>) -> Seq<(Seq<u64>, Seq<(ObjectKind, Seq<char>, u32)>)>
    decreases end - start,
{
    if start >= end {
        m
    } else {
        model_observe(model_bump(m, suffix_key(context, start as int), kind, id), context, start + 1, end, kind, id)
    }
}

proof fn lemma_ctx_index_bound(m: Seq<(Seq<u64>, Seq<(ObjectKind, Seq<char>, u32)>)>, key: Seq<u64>, i: nat)
    ensures
        ctx_index(m, key, i) matches Some(j) ==> i <= j < m.len() && m[j as int].0 == key,
    decreases m.len() - i,
{
    if i < m.len() {
        lemma_ctx_index_bound(m, key, i + 1);
    }
}

fn u64s_equal(a: &[u64], b: &[u64]) -> (r: bool)
    ensures
        r == (a@ == b@),
{
    if a.len() != b.len() {
        return false;
    }
    let mut i: usize = 0;
    while i < a.len()
        invariant
            i <= a@.len(),
            a@.len() == b@.len(),
            forall|j: int| 0 <= j < i ==> a@[j] == b@[j],
        decreases a@.len() - i,
    {
        if a[i] != b[i] {
            return false;
        }
        i = i + 1;
    }
    assert(a@ =~= b@);
    true
}

fn suffix_key_exec(context: &[ContextHash], start: usize) -> (k: Vec<u64>)
    requires
        start <= context@.len(),
    ensures
        k@ == suffix_key(context@, start as int),
{
    let mut k: Vec<u64> = Vec::new();
    let mut i: usize = start;
    while i < context.len()
        invariant
            start <= i <= context@.len(),
            k@ == suffix_key(context@.subrange(0, i as int), start as int),
        decreases context@.len() - i,
    {
        k.push(context[i].0);
        i = i + 1;
        assert(k@ =~= suffix_key(context@.subrange(0, i as int), start as int));
    }
    assert(context@.subrange(0, i as int) =~= context@);
    k
}

fn find_context(m: &Vec<(Vec<u64>, Vec<(EpisodeObjectRef, u32)>)>, key: &Vec<u64>) -> (r: Option<usize>)
    ensures
        match r {
            Some(i) => ctx_index(model_view(m@), key@, 0) == Some(i as nat) && i < m@.len(),
            None => ctx_index(model_view(m@), key@, 0) is None,
        },
{
    let ghost mv = model_view(m@);
    let mut i: usize = 0;
    while i < m.len()
        invariant
            i <= m@.len(),
            mv == model_view(m@),
            ctx_index(mv, key@, 0) == ctx_index(mv, key@, i as nat),
        decreases m@.len() - i,
    {
        if u64s_equal(m[i].0.as_slice(), key.as_slice()) {
            return Some(i);
        }
        i = i + 1;
    }
    None
}

impl BoundedContextModel {
    pub fn bounded(max_order: u8, max_branches_per_context: u16) -> (m: Self)
        ensures
            m.max_order == (if max_order == 0 { 1 } else { max_order }),
            m.max_branches_per_context == (if max_branches_per_context == 0 { 1 } else { max_branches_per_context }),
            m.transition_counts@.len() == 0,
    {
        BoundedContextModel {
            max_order: if max_order == 0 { 1 } else { max_order },
            max_branches_per_context: if max_branches_per_context == 0 { 1 } else { max_branches_per_context },
            transition_counts: Vec::new(),
        }
    }

    /// Counts `next` after every suffix of the context up to `max_order` long.
    pub fn observe(&mut self, context: &[ContextHash], next: &EpisodeObjectRef)
        ensures
            final(self).max_order == old(self).max_order,
            final(self).max_branches_per_context == old(self).max_branches_per_context,
            model_view(final(self).transition_counts@) == model_observe(
                model_view(old(self).transition_counts@),
                context@,
                suffix_start(context@.len(), old(self).max_order),
                context@.len(),
                next.object_kind,
                next.object_id@,
            ),
    {
        let max_order = self.max_order as usize;
        let start: usize = if context.len() < max_order { 0 } else { context.len() - max_order };
        let mut order_start = start;
        while order_start < context.len()
            invariant
                start <= order_start <= context@.len(),
                self.max_order == old(self).max_order,
                self.max_branches_per_context == old(self).max_branches_per_context,
                model_observe(model_view(old(self).transition_counts@), context@, start as nat, context@.len(), next.object_kind, next.object_id@)
                    == model_observe(model_view(self.transition_counts@), context@, order_start as nat, context@.len(), next.object_kind, next.object_id@),
            decreases context@.len() - order_start,
        {
            let key = suffix_key_exec(context, order_start);
            let ghost before = model_view(self.transition_counts@);
            match find_context(&self.transition_counts, &key) {
                Some(i) => {
                    let (k, mut counts) = self.transition_counts.remove(i);
                    counts_add_exec(&mut counts, next, 1);
                    self.transition_counts.insert(i, (k, counts));
                    proof {
                        lemma_ctx_index_bound(before, key@, 0);
                        assert(model_view(self.transition_counts@) =~= model_bump(before, key@, next.object_kind, next.object_id@));
                    }
                },
                None => {
                    let mut counts: Vec<(EpisodeObjectRef, u32)> = Vec::new();
                    assert(counts_view(counts@) =~= Seq::<(ObjectKind, Seq<char>, u32)>::empty());
                    counts_add_exec(&mut counts, next, 1);
                    let ghost kv = key@;
                    self.transition_counts.push((key, counts));
                    proof {
                        assert(model_view(self.transition_counts@) =~= model_bump(before, kv, next.object_kind, next.object_id@));
                    }
                },
            }
            order_start = order_start + 1;
        }
    }
}

/// `merged` with each of `entries` added in order.
pub open spec fn merge_counts(merged: Seq<(ObjectKind, Seq<char>, u32)>, entries: Seq<(ObjectKind, Seq<char>, u32)>) -> Seq<(ObjectKind, Seq<char>, u32)>
    decreases entries.len(),
{
    if entries.len() == 0 {
        merged
    } else {
        let m = merge_counts(merged, entries.drop_last());
        counts_add(m, entries.last().0, entries.last().1, entries.last().2)
    }
}

/// The counts of every known suffix from `s` to `end`, merged into `acc`.
pub open spec fn merged_from(acc: Seq<(ObjectKind, Seq<char>, u32)>, mv: Seq<(Seq<u64>, Seq<(ObjectKind, Seq<char>, u32)>)>, context: Seq<ContextHash>, s: nat, end: nat) -> Seq<(ObjectKind, Seq<char>, u32)>
    decreases end - s,
{
    if s >= end {
        acc
    } else {
        let next = match ctx_index(mv, suffix_key(context, s as int), 0) {
            Some(i) => merge_counts(acc, mv[i as int].1),
            None => acc,
        };
        merged_from(next, mv, context, s + 1, end)
    }
}

pub open spec fn count_insert_pos(s: Seq<(ObjectKind, Seq<char>, u32)>, x: (ObjectKind, Seq<char>, u32)) -> nat
    decreases s.len(),
{
    if s.len() == 0 {
        0
    } else if x.2 > s[0].2 {
        0
    } else {
        1 + count_insert_pos(s.drop_first(), x)
    }
}

/// The entries by count, most first, equal counts in their original order.
pub open spec fn count_ranked(s: Seq<(ObjectKind, Seq<char>, u32)>) -> Seq<(ObjectKind, Seq<char>, u32)>
    decreases s.len(),
{
    if s.len() == 0 {
        s
    } else {
        let t = count_ranked(s.drop_last());
        t.insert(count_insert_pos(t, s.last()) as int, s.last())
    }
}

proof fn lemma_count_insert_pos_bound(s: Seq<(ObjectKind, Seq<char>, u32)>, x: (ObjectKind, Seq<char>, u32))
    ensures
        count_insert_pos(s, x) <= s.len(),
    decreases s.len(),
{
    if s.len() > 0 {
        lemma_count_insert_pos_bound(s.drop_first(), x);
    }
}

proof fn lemma_count_ranked_len(s: Seq<(ObjectKind, Seq<char>, u32)>)
    ensures
        count_ranked(s).len() == s.len(),
    decreases s.len(),
{
    if s.len() > 0 {
        lemma_count_ranked_len(s.drop_last());
        lemma_count_insert_pos_bound(count_ranked(s.drop_last()), s.last());
    }
}

/// The kind a prediction reports: only assembly, transform, schema and the
/// two hint kinds keep their own kind.
pub open spec fn predicted_kind_of(kind: ObjectKind) -> ObjectKind {
    match kind {
        ObjectKind::Assembly => ObjectKind::Assembly,
        ObjectKind::Transform => ObjectKind::Transform,
        ObjectKind::Schema => ObjectKind::Schema,
        ObjectKind::EpisodeHint => ObjectKind::EpisodeHint,
        ObjectKind::ReplayHint => ObjectKind::ReplayHint,
        _ => ObjectKind::PredictiveObject,
    }
}

pub open spec fn count_band(count: u32) -> PrecisionBand {
    if count >= 8 {
        PrecisionBand::Tight
    } else if count >= 4 {
        PrecisionBand::Balanced
    } else {
        PrecisionBand::Broad
    }
}

/// The ranked continuations of the context, at most the branch limit.
pub open spec fn predictions_spec(m: BoundedContextModel, context: Seq<ContextHash>) -> Seq<(ObjectKind, Seq<char>, u32)> {
    crate::catalog::first_n(
        count_ranked(merged_from(Seq::empty(), model_view(m.transition_counts@), context, suffix_start(context.len(), m.max_order), context.len())),
        m.max_branches_per_context as nat,
    )
}

/// A prediction reports the `idx`th ranked continuation.
pub open spec fn prediction_matches(p: ContinuationPrediction, context: Seq<ContextHash>, e: (ObjectKind, Seq<char>, u32), idx: int) -> bool {
    &&& p.context_hash == (if context.len() > 0 { context.last() } else { ContextHash(0) })
    &&& p.predicted_kind == predicted_kind_of(e.0)
    &&& p.predicted_object_id@ == e.1
    &&& p.transition_count == TransitionCount(e.2)
    &&& p.branch_rank == BranchRank(idx as u16)
    &&& p.precision_band == count_band(e.2)
}

fn merge_counts_exec(merged: &mut Vec<(EpisodeObjectRef, u32)>, entries: &Vec<(EpisodeObjectRef, u32)>)
    ensures
        counts_view(final(merged)@) == merge_counts(counts_view(old(merged)@), counts_view(entries@)),
{
    let ghost ev = counts_view(entries@);
    let mut i: usize = 0;
    while i < entries.len()
        invariant
            i <= entries@.len(),
            ev == counts_view(entries@),
            counts_view(merged@) == merge_counts(counts_view(old(merged)@), ev.take(i as int)),
        decreases entries@.len() - i,
    {
        proof {
            assert(ev.take(i + 1).drop_last() =~= ev.take(i as int));
        }
        counts_add_exec(merged, &entries[i].0, entries[i].1);
        i = i + 1;
    }
    assert(ev.take(i as int) =~= ev);
}

pub(crate) fn predicted_kind_exec(kind: ObjectKind) -> (k: ObjectKind)
    ensures
        k == predicted_kind_of(kind),
{
    match kind {
        ObjectKind::Assembly => ObjectKind::Assembly,
        ObjectKind::Transform => ObjectKind::Transform,
        ObjectKind::Schema => ObjectKind::Schema,
        ObjectKind::EpisodeHint => ObjectKind::EpisodeHint,
        ObjectKind::ReplayHint => ObjectKind::ReplayHint,
        _ => ObjectKind::PredictiveObject,
    }
}

impl BoundedContextModel {
    /// The ranked continuations of the context: counts merged over every
    /// known suffix up to `max_order` long, most first (ties by object key),
    /// at most `max_branches_per_context`.
    pub fn predict_next_kind(&self, context: &[ContextHash]) -> (r: Vec<ContinuationPrediction>)
        ensures
            r@.len() == predictions_spec(*self, context@).len(),
            forall|i: int| 0 <= i < r@.len() ==> prediction_matches(#[trigger] r@[i], context@, predictions_spec(*self, context@)[i], i),
    {
        let ghost mv = model_view(self.transition_counts@);
        let max_order = self.max_order as usize;
        let start: usize = if context.len() < max_order { 0 } else { context.len() - max_order };
        let mut merged: Vec<(EpisodeObjectRef, u32)> = Vec::new();
        let mut order_start = start;
        assert(counts_view(merged@) =~= Seq::<(ObjectKind, Seq<char>, u32)>::empty());
        while order_start < context.len()
            invariant
                start <= order_start <= context@.len(),
                start == suffix_start(context@.len(), self.max_order),
                mv == model_view(self.transition_counts@),
                merged_from(Seq::empty(), mv, context@, start as nat, context@.len())
                    == merged_from(counts_view(merged@), mv, context@, order_start as nat, context@.len()),
            decreases context@.len() - order_start,
        {
            let key = suffix_key_exec(context, order_start);
            match find_context(&self.transition_counts, &key) {
                Some(i) => {
                    proof {
                        assert(mv[i as int].1 == counts_view(self.transition_counts@[i as int].1@));
                    }
                    merge_counts_exec(&mut merged, &self.transition_counts[i].1);
                },
                None => {},
            }
            order_start = order_start + 1;
        }
        assert(counts_view(Seq::<(EpisodeObjectRef, u32)>::empty()) =~= Seq::<(ObjectKind, Seq<char>, u32)>::empty());
        let ghost full = counts_view(merged@);
        let mut ranked: Vec<(EpisodeObjectRef, u32)> = Vec::new();
        let ghost mut seen: Seq<(ObjectKind, Seq<char>, u32)> = Seq::empty();
        while merged.len() > 0
            invariant
                counts_view(ranked@) == count_ranked(seen),
                seen + counts_view(merged@) == full,
            decreases merged@.len(),
        {
            let x = merged.remove(0);
            let ghost xv = count_view(x);
            proof {
                lemma_count_ranked_len(seen);
                lemma_count_insert_pos_bound(counts_view(ranked@), xv);
            }
            let mut p: usize = 0;
            assert(counts_view(ranked@).subrange(0, ranked@.len() as int) =~= counts_view(ranked@));
            while p < ranked.len() && !(x.1 > ranked[p].1)
                invariant
                    p <= ranked@.len(),
                    xv == count_view(x),
                    counts_view(ranked@).len() == ranked@.len(),
                    count_insert_pos(counts_view(ranked@), xv) == p + count_insert_pos(counts_view(ranked@).subrange(p as int, ranked@.len() as int), xv),
                decreases ranked@.len() - p,
            {
                proof {
                    let rest = counts_view(ranked@).subrange(p as int, ranked@.len() as int);
                    assert(rest[0] == counts_view(ranked@)[p as int]);
                    assert(rest.drop_first() =~= counts_view(ranked@).subrange(p + 1, ranked@.len() as int));
                }
                p = p + 1;
            }
            proof {
                let rest = counts_view(ranked@).subrange(p as int, ranked@.len() as int);
                if p < ranked@.len() {
                    assert(rest[0] == counts_view(ranked@)[p as int]);
                }
                assert(seen.push(xv).drop_last() =~= seen);
            }
            let ghost before = ranked@;
            ranked.insert(p, x);
            proof {
                assert(counts_view(ranked@) =~= counts_view(before).insert(p as int, xv));
                let s0 = seen;
                seen = seen.push(xv);
                assert(seen + counts_view(merged@) =~= s0 + (seq![xv] + counts_view(merged@)));
            }
        }
        assert(seen =~= full);
        ranked.truncate(self.max_branches_per_context as usize);
        let ghost final_view = counts_view(ranked@);
        assert(final_view =~= predictions_spec(*self, context@));
        let last_hash: ContextHash = if context.len() > 0 { context[context.len() - 1] } else { ContextHash(0) };
        let mut out: Vec<ContinuationPrediction> = Vec::new();
        let mut idx: usize = 0;
        while idx < ranked.len()
            invariant
                idx <= ranked@.len(),
                final_view == counts_view(ranked@),
                final_view == predictions_spec(*self, context@),
                last_hash == (if context@.len() > 0 { context@.last() } else { ContextHash(0) }),
                out@.len() == idx,
                forall|i: int| 0 <= i < idx ==> prediction_matches(#[trigger] out@[i], context@, final_view[i], i),
            decreases ranked@.len() - idx,
        {
            let (obj, count) = (&ranked[idx].0, ranked[idx].1);
            let band = if count >= 8 {
                PrecisionBand::Tight
            } else if count >= 4 {
                PrecisionBand::Balanced
            } else {
                PrecisionBand::Broad
            };
            out.push(ContinuationPrediction {
                context_hash: last_hash,
                predicted_kind: predicted_kind_exec(obj.object_kind),
                predicted_object_id: obj.object_id.clone(),
                transition_count: TransitionCount(count),
                branch_rank: BranchRank(idx as u16),
                precision_band: band,
            });
            idx = idx + 1;
        }
        out
    }
}

} // verus!
