//! Schemas: graphs abstracted from episodes, the route candidates they offer
//! for a cue, and the queue that promotes the stable ones.

use vstd::prelude::*;
use crate::catalog::first_n;
use crate::chpmt::{
    ContextHash, ObjectDependency, ObjectKind, ObjectLifecycleMeta, ObjectVersion, PrecisionBand,
    SchemaKind, SparseCue, cue_overlap,
};
use crate::episode::SchemaId;
use crate::num::{sat_add_u32, sat_mul_u32, sat_sub_u32, saturating_mul_u32};
use crate::source::SourceKind;

verus! {

#[derive(Debug, Clone, Copy, PartialEq, Eq, Hash, Default, Structural)]
pub enum SchemaSlotType {
    #[default]
    ExactBytes,
    Atom,
    Assembly,
    Transform,
    Episode,
    Schema,
}

#[derive(Debug, Clone, PartialEq, Eq, Default)]
pub struct SchemaEntryCondition {
    pub cue: SparseCue,
    pub required_context_hashes: Vec<ContextHash>,
    pub admissible_source_kinds: Vec<SourceKind>,
    pub min_support_count: u32,
}

#[derive(Debug, Clone, Copy, PartialEq, Eq, Default, Structural)]
pub struct SchemaSlotDescriptor {
    pub slot_id: u16,
    pub slot_type: SchemaSlotType,
    pub required: bool,
    pub min_len: u32,
    pub max_len: u32,
}

#[derive(Debug, Clone, Copy, PartialEq, Eq, PartialOrd, Ord, Hash, Default, Structural)]
pub struct SchemaNodeId(pub u32);

#[derive(Debug, Clone, Copy, PartialEq, Eq, PartialOrd, Ord, Hash, Default, Structural)]
pub struct SchemaEdgeId(pub u32);

#[derive(Debug, Clone, PartialEq, Eq, Default)]
pub struct SchemaObjectRef {
    pub object_kind: ObjectKind,
    pub object_id: String,
}

#[derive(Debug, Clone, PartialEq, Eq, Default)]
pub struct SchemaNode {
    pub node_id: SchemaNodeId,
    pub kind: ObjectKind,
    pub object_ref: Option<SchemaObjectRef>,
    pub slot_binding: Option<u16>,
    pub output_len: u32,
}

#[derive(Debug, Clone, Copy, PartialEq, Eq, Default, Structural)]
pub struct SchemaEdge {
    pub edge_id: SchemaEdgeId,
    pub from_node: SchemaNodeId,
    pub to_node: SchemaNodeId,
    pub guard_precision: PrecisionBand,
    pub max_fanout: u16,
}

#[derive(Debug, Clone, PartialEq, Eq, Default)]
pub struct SchemaDependencyClosure {
    pub version: ObjectVersion,
    pub dependencies: Vec<ObjectDependency>,
}

#[derive(Debug, Clone, PartialEq, Eq, Default)]
pub struct SchemaGraph {
    pub schema_id: SchemaId,
    pub source_kind: SourceKind,
    pub schema_kind: SchemaKind,
    pub entry_condition: SchemaEntryCondition,
    pub slots: Vec<SchemaSlotDescriptor>,
    pub nodes: Vec<SchemaNode>,
    pub edges: Vec<SchemaEdge>,
    pub dependency_closure: SchemaDependencyClosure,
    pub decode_max_nodes: u16,
    pub decode_max_depth: u8,
    pub output_len: u32,
    pub lifecycle: ObjectLifecycleMeta,
    pub cue: SparseCue,
    pub cross_episode_support: u32,
    pub contradiction_burden: u32,
    pub branch_consistency: u32,
    pub mean_decode_burden: u32,
    pub retire_after_failures: u32,
}

#[derive(Debug, Clone, PartialEq, Eq, Default)]
pub struct SchemaRouteCandidate {
    pub schema_id: SchemaId,
    pub source_kind: SourceKind,
    pub schema_kind: SchemaKind,
    pub entry_condition: SchemaEntryCondition,
    pub dependency_closure: SchemaDependencyClosure,
    pub precision_band: PrecisionBand,
    pub fanout_cap: u16,
    pub depth_cap: u8,
    pub output_len: u32,
    pub cue: SparseCue,
    pub cue_overlap: u32,
    pub cross_episode_support: u32,
    pub contradiction_burden: u32,
    pub branch_consistency: u32,
    pub decode_burden: u32,
}

#[derive(Debug, Clone, Copy, PartialEq, Eq, Default, Structural)]
pub struct SchemaCandidatePolicy {
    pub max_candidates: u16,
    pub max_depth: u8,
    pub max_fanout: u16,
}

impl SchemaCandidatePolicy {
    /// At most 8 candidates, 8 deep and 8 wide.
    pub fn bounded_default() -> (p: Self)
        ensures
            p == (SchemaCandidatePolicy { max_candidates: 8, max_depth: 8, max_fanout: 8 }),
    {
        SchemaCandidatePolicy { max_candidates: 8, max_depth: 8, max_fanout: 8 }
    }
}

// ---------------------------------------------------------------------------
// Copies that keep the values
// ---------------------------------------------------------------------------

fn copy_hashes(v: &Vec<ContextHash>) -> (c: Vec<ContextHash>)
    ensures
        c@ == v@,
{
    let mut c: Vec<ContextHash> = Vec::new();
    let mut i: usize = 0;
    while i < v.len()
        invariant
            i <= v@.len(),
            c@ == v@.take(i as int),
        decreases v@.len() - i,
    {
        c.push(v[i]);
        i = i + 1;
        assert(c@ =~= v@.take(i as int));
    }
    assert(v@.take(i as int) =~= v@);
    c
}

fn copy_kinds(v: &Vec<SourceKind>) -> (c: Vec<SourceKind>)
    ensures
        c@ == v@,
{
    let mut c: Vec<SourceKind> = Vec::new();
    let mut i: usize = 0;
    while i < v.len()
        invariant
            i <= v@.len(),
            c@ == v@.take(i as int),
        decreases v@.len() - i,
    {
        c.push(v[i]);
        i = i + 1;
        assert(c@ =~= v@.take(i as int));
    }
    assert(v@.take(i as int) =~= v@);
    c
}

/// A dependency, as values.
pub open spec fn dependency_view(d: ObjectDependency) -> (ObjectKind, Seq<char>, u32) {
    (d.object_kind, d.object_id@, d.required_revision)
}

pub open spec fn dependencies_view(s: Seq<ObjectDependency>) -> Seq<(ObjectKind, Seq<char>, u32)> {
    s.map_values(|d: ObjectDependency| dependency_view(d))
}

fn copy_dependencies(v: &Vec<ObjectDependency>) -> (c: Vec<ObjectDependency>)
    ensures
        dependencies_view(c@) == dependencies_view(v@),
{
    let mut c: Vec<ObjectDependency> = Vec::new();
    let mut i: usize = 0;
    while i < v.len()
        invariant
            i <= v@.len(),
            c@.len() == i,
            dependencies_view(c@) == dependencies_view(v@.take(i as int)),
        decreases v@.len() - i,
    {
        let d = &v[i];
        let ghost c0 = c@;
        c.push(ObjectDependency { object_kind: d.object_kind, object_id: d.object_id.clone(), required_revision: d.required_revision });
        proof {
            assert(dependency_view(c@[i as int]) == dependency_view(v@[i as int]));
            assert(dependencies_view(c@) =~= dependencies_view(c0).push(dependency_view(v@[i as int])));
            assert(v@.take(i + 1) =~= v@.take(i as int).push(v@[i as int]));
            assert(dependencies_view(v@.take(i + 1)) =~= dependencies_view(v@.take(i as int)).push(dependency_view(v@[i as int])));
        }
        i = i + 1;
    }
    assert(v@.take(i as int) =~= v@);
    c
}

/// Two entry conditions hold the same values.
pub open spec fn same_condition(a: SchemaEntryCondition, b: SchemaEntryCondition) -> bool {
    &&& a.cue == b.cue
    &&& a.required_context_hashes@ == b.required_context_hashes@
    &&& a.admissible_source_kinds@ == b.admissible_source_kinds@
    &&& a.min_support_count == b.min_support_count
}

/// Two dependency closures hold the same values.
pub open spec fn same_closure(a: SchemaDependencyClosure, b: SchemaDependencyClosure) -> bool {
    &&& a.version == b.version
    &&& dependencies_view(a.dependencies@) == dependencies_view(b.dependencies@)
}

fn copy_condition(c: &SchemaEntryCondition) -> (r: SchemaEntryCondition)
    ensures
        same_condition(r, *c),
{
    SchemaEntryCondition {
        cue: c.cue,
        required_context_hashes: copy_hashes(&c.required_context_hashes),
        admissible_source_kinds: copy_kinds(&c.admissible_source_kinds),
        min_support_count: c.min_support_count,
    }
}

fn copy_closure(c: &SchemaDependencyClosure) -> (r: SchemaDependencyClosure)
    ensures
        same_closure(r, *c),
{
    SchemaDependencyClosure { version: c.version, dependencies: copy_dependencies(&c.dependencies) }
}

// ---------------------------------------------------------------------------
// Route candidates
// ---------------------------------------------------------------------------

/// `x` occurs in `s`.
pub open spec fn seq_has<T>(s: Seq<T>, x: T) -> bool {
    exists|i: int| 0 <= i < s.len() && s[i] == x
}

/// A schema is offered for the cue: same source kind, within the policy's
/// depth and fanout, admitting the source kind, and its required contexts
/// met by the context hash (none may be required without one).
pub open spec fn schema_eligible(s: SchemaGraph, source: SourceKind, ctx: Option<ContextHash>, policy: SchemaCandidatePolicy) -> bool {
    let req = s.entry_condition.required_context_hashes@;
    let adm = s.entry_condition.admissible_source_kinds@;
    &&& s.source_kind == source
    &&& s.decode_max_depth <= policy.max_depth
    &&& s.decode_max_nodes <= policy.max_fanout
    &&& adm.len() == 0 || seq_has(adm, source)
    &&& match ctx {
        Some(h) => req.len() == 0 || seq_has(req, h),
        None => req.len() == 0,
    }
}

/// The indices of the eligible schemas among the first `n`, in order.
pub open spec fn eligible_indices(schemas: Seq<SchemaGraph>, source: SourceKind, ctx: Option<ContextHash>, policy: SchemaCandidatePolicy, n: nat) -> Seq<int>
    decreases n,
{
    if n == 0 {
        Seq::empty()
    } else {
        let rest = eligible_indices(schemas, source, ctx, policy, (n - 1) as nat);
        if schema_eligible(schemas[n - 1], source, ctx, policy) {
            rest.push(n - 1)
        } else {
            rest
        }
    }
}

pub open spec fn support_of(s: SchemaGraph) -> u32 {
    if s.cross_episode_support >= s.lifecycle.support_count { s.cross_episode_support } else { s.lifecycle.support_count }
}

pub open spec fn consistency_of(s: SchemaGraph) -> u32 {
    let edges: u32 = if s.edges@.len() <= 0xffff_ffff { s.edges@.len() as u32 } else { 0xffff_ffff };
    if s.branch_consistency >= edges { s.branch_consistency } else { edges }
}

pub open spec fn burden_of(s: SchemaGraph) -> u32 {
    if s.mean_decode_burden >= s.decode_max_depth as u32 { s.mean_decode_burden } else { s.decode_max_depth as u32 }
}

/// A candidate's quality: cue overlap, support and consistency, less its
/// contradictions and half its decode burden, all saturating.
pub open spec fn quality_of(s: SchemaGraph, cue: SparseCue) -> u32 {
    sat_sub_u32(
        sat_sub_u32(
            sat_add_u32(sat_add_u32(cue_overlap(cue, s.cue) as u32, support_of(s)), consistency_of(s)),
            s.contradiction_burden,
        ),
        burden_of(s) / 2,
    )
}

/// Schema `a` ranks strictly before `b`: higher quality, then more cue
/// overlap, then the smaller id.
pub open spec fn schema_before(a: SchemaGraph, b: SchemaGraph, cue: SparseCue) -> bool {
    if quality_of(a, cue) != quality_of(b, cue) {
        quality_of(a, cue) > quality_of(b, cue)
    } else if cue_overlap(cue, a.cue) != cue_overlap(cue, b.cue) {
        cue_overlap(cue, a.cue) > cue_overlap(cue, b.cue)
    } else {
        a.schema_id.0 < b.schema_id.0
    }
}

pub open spec fn schema_insert_pos(schemas: Seq<SchemaGraph>, s: Seq<int>, x: int, cue: SparseCue) -> nat
    decreases s.len(),
{
    if s.len() == 0 {
        0
    } else if schema_before(schemas[x], schemas[s[0]], cue) {
        0
    } else {
        1 + schema_insert_pos(schemas, s.drop_first(), x, cue)
    }
}

/// The indices ranked, equal ones in their original order.
pub open spec fn schemas_ranked(schemas: Seq<SchemaGraph>, s: Seq<int>, cue: SparseCue) -> Seq<int>
    decreases s.len(),
{
    if s.len() == 0 {
        s
    } else {
        let t = schemas_ranked(schemas, s.drop_last(), cue);
        t.insert(schema_insert_pos(schemas, t, s.last(), cue) as int, s.last())
    }
}

proof fn lemma_schema_insert_pos_bound(schemas: Seq<SchemaGraph>, s: Seq<int>, x: int, cue: SparseCue)
    ensures
        schema_insert_pos(schemas, s, x, cue) <= s.len(),
    decreases s.len(),
{
    if s.len() > 0 {
        lemma_schema_insert_pos_bound(schemas, s.drop_first(), x, cue);
    }
}

proof fn lemma_schemas_ranked_len(schemas: Seq<SchemaGraph>, s: Seq<int>, cue: SparseCue)
    ensures
        schemas_ranked(schemas, s, cue).len() == s.len(),
        (forall|i: int| 0 <= i < s.len() ==> 0 <= #[trigger] s[i] < schemas.len()) ==> (forall|i: int| 0 <= i < s.len() ==> 0 <= #[trigger] schemas_ranked(schemas, s, cue)[i] < schemas.len()),
    decreases s.len(),
{
    if s.len() > 0 {
        lemma_schemas_ranked_len(schemas, s.drop_last(), cue);
        let t = schemas_ranked(schemas, s.drop_last(), cue);
        let p = schema_insert_pos(schemas, t, s.last(), cue);
        lemma_schema_insert_pos_bound(schemas, t, s.last(), cue);
        if forall|i: int| 0 <= i < s.len() ==> 0 <= #[trigger] s[i] < schemas.len() {
            let d = s.drop_last();
            assert forall|i: int| 0 <= i < d.len() implies 0 <= #[trigger] d[i] < schemas.len() by {
                assert(d[i] == s[i]);
            }
            let r = t.insert(p as int, s.last());
            assert(s.last() == s[s.len() - 1]);
            assert forall|i: int| 0 <= i < r.len() implies 0 <= #[trigger] r[i] < schemas.len() by {
                if i < p {
                    assert(r[i] == t[i]);
                } else if i > p {
                    assert(r[i] == t[i - 1]);
                }
            }
        }
    }
}

/// The schemas the candidates come from, by index, in candidate order.
pub open spec fn route_candidate_indices(schemas: Seq<SchemaGraph>, cue: SparseCue, source: SourceKind, ctx: Option<ContextHash>, policy: SchemaCandidatePolicy) -> Seq<int> {
    first_n(schemas_ranked(schemas, eligible_indices(schemas, source, ctx, policy, schemas.len()), cue), policy.max_candidates as nat)
}

/// Candidate `c` is what schema `s` offers for the cue under the policy.
pub open spec fn candidate_of(c: SchemaRouteCandidate, s: SchemaGraph, cue: SparseCue, policy: SchemaCandidatePolicy) -> bool {
    &&& c.schema_id == s.schema_id
    &&& c.source_kind == s.source_kind
    &&& c.schema_kind == s.schema_kind
    &&& same_condition(c.entry_condition, s.entry_condition)
    &&& same_closure(c.dependency_closure, s.dependency_closure)
    &&& c.precision_band == PrecisionBand::Balanced
    &&& c.fanout_cap == (if s.decode_max_nodes <= policy.max_fanout { s.decode_max_nodes } else { policy.max_fanout })
    &&& c.depth_cap == (if s.decode_max_depth <= policy.max_depth { s.decode_max_depth } else { policy.max_depth })
    &&& c.output_len == s.output_len
    &&& c.cue == s.cue
    &&& c.cue_overlap == cue_overlap(cue, s.cue)
    &&& c.cross_episode_support == support_of(s)
    &&& c.contradiction_burden == s.contradiction_burden
    &&& c.branch_consistency == consistency_of(s)
    &&& c.decode_burden == burden_of(s)
}

fn has_hash(v: &Vec<ContextHash>, h: ContextHash) -> (b: bool)
    ensures
        b == seq_has(v@, h),
{
    let mut i: usize = 0;
    while i < v.len()
        invariant
            i <= v@.len(),
            forall|k: int| 0 <= k < i ==> v@[k] != h,
        decreases v@.len() - i,
    {
        if v[i].0 == h.0 {
            return true;
        }
        i = i + 1;
    }
    false
}

fn has_kind(v: &Vec<SourceKind>, k: SourceKind) -> (b: bool)
    ensures
        b == seq_has(v@, k),
{
    let mut i: usize = 0;
    while i < v.len()
        invariant
            i <= v@.len(),
            forall|j: int| 0 <= j < i ==> v@[j] != k,
        decreases v@.len() - i,
    {
        if v[i] == k {
            return true;
        }
        i = i + 1;
    }
    false
}

fn is_eligible(s: &SchemaGraph, source: SourceKind, ctx: Option<ContextHash>, policy: SchemaCandidatePolicy) -> (b: bool)
    ensures
        b == schema_eligible(*s, source, ctx, policy),
{
    let req = &s.entry_condition.required_context_hashes;
    let adm = &s.entry_condition.admissible_source_kinds;
    if s.source_kind != source || s.decode_max_depth > policy.max_depth || s.decode_max_nodes > policy.max_fanout {
        return false;
    }
    if adm.len() > 0 && !has_kind(adm, source) {
        return false;
    }
    match ctx {
        Some(h) => req.len() == 0 || has_hash(req, h),
        None => req.len() == 0,
    }
}

fn support_exec(s: &SchemaGraph) -> (r: u32)
    ensures
        r == support_of(*s),
{
    if s.cross_episode_support >= s.lifecycle.support_count { s.cross_episode_support } else { s.lifecycle.support_count }
}

fn consistency_exec(s: &SchemaGraph) -> (r: u32)
    ensures
        r == consistency_of(*s),
{
    let n = s.edges.len();
    let edges: u32 = if n <= 0xffff_ffff { n as u32 } else { 0xffff_ffff };
    if s.branch_consistency >= edges { s.branch_consistency } else { edges }
}

fn burden_exec(s: &SchemaGraph) -> (r: u32)
    ensures
        r == burden_of(*s),
{
    if s.mean_decode_burden >= s.decode_max_depth as u32 { s.mean_decode_burden } else { s.decode_max_depth as u32 }
}

fn quality_exec(s: &SchemaGraph, cue: SparseCue) -> (q: u32)
    ensures
        q == quality_of(*s, cue),
{
    cue.overlap_score(s.cue).saturating_add(support_exec(s)).saturating_add(consistency_exec(s)).saturating_sub(
        s.contradiction_burden,
    ).saturating_sub(burden_exec(s) / 2)
}

fn schema_before_exec(a: &SchemaGraph, b: &SchemaGraph, cue: SparseCue) -> (r: bool)
    ensures
        r == schema_before(*a, *b, cue),
{
    let qa = quality_exec(a, cue);
    let qb = quality_exec(b, cue);
    if qa != qb {
        return qa > qb;
    }
    let ca = cue.overlap_score(a.cue);
    let cb = cue.overlap_score(b.cue);
    if ca != cb {
        return ca > cb;
    }
    a.schema_id.0 < b.schema_id.0
}

fn schema_find_pos(schemas: &[SchemaGraph], v: &Vec<usize>, x: usize, cue: SparseCue) -> (p: usize)
    requires
        x < schemas@.len(),
        forall|i: int| 0 <= i < v@.len() ==> #[trigger] v@[i] < schemas@.len(),
    ensures
        p == schema_insert_pos(schemas@, v@.map_values(|k: usize| k as int), x as int, cue),
{
    let ghost iv = v@.map_values(|k: usize| k as int);
    let mut i: usize = 0;
    assert(iv.subrange(0, iv.len() as int) =~= iv);
    while i < v.len()
        invariant
            i <= v@.len(),
            x < schemas@.len(),
            forall|k: int| 0 <= k < v@.len() ==> #[trigger] v@[k] < schemas@.len(),
            iv == v@.map_values(|k: usize| k as int),
            schema_insert_pos(schemas@, iv, x as int, cue) == i + schema_insert_pos(schemas@, iv.subrange(i as int, iv.len() as int), x as int, cue),
        decreases v@.len() - i,
    {
        proof {
            let rest = iv.subrange(i as int, iv.len() as int);
            assert(rest[0] == iv[i as int]);
            assert(rest.drop_first() =~= iv.subrange(i + 1, iv.len() as int));
        }
        if schema_before_exec(&schemas[x], &schemas[v[i]], cue) {
            return i;
        }
        i = i + 1;
    }
    proof {
        assert(iv.subrange(i as int, iv.len() as int).len() == 0);
    }
    i
}

/// The route candidates the schemas offer for a cue: the eligible schemas
/// ranked by quality, cue overlap and id, at most `max_candidates`.
pub fn generate_schema_route_candidates(
    schemas: &[SchemaGraph],
    cue: SparseCue,
    source_kind: SourceKind,
    context_hash: Option<ContextHash>,
    policy: SchemaCandidatePolicy,
) -> (r: Vec<SchemaRouteCandidate>)
    ensures
        r@.len() == route_candidate_indices(schemas@, cue, source_kind, context_hash, policy).len(),
        forall|i: int| 0 <= i < r@.len() ==> candidate_of(
            #[trigger] r@[i],
            schemas@[route_candidate_indices(schemas@, cue, source_kind, context_hash, policy)[i]],
            cue,
            policy,
        ),
{
    let mut eligible: Vec<usize> = Vec::new();
    let mut i: usize = 0;
    while i < schemas.len()
        invariant
            i <= schemas@.len(),
            eligible@.map_values(|k: usize| k as int) == eligible_indices(schemas@, source_kind, context_hash, policy, i as nat),
            forall|k: int| 0 <= k < eligible@.len() ==> #[trigger] eligible@[k] < i,
        decreases schemas@.len() - i,
    {
        if is_eligible(&schemas[i], source_kind, context_hash, policy) {
            let ghost before = eligible@;
            eligible.push(i);
            assert(eligible@.map_values(|k: usize| k as int) =~= before.map_values(|k: usize| k as int).push(i as int));
        }
        i = i + 1;
    }
    let ghost full = eligible@.map_values(|k: usize| k as int);
    let mut rest = eligible;
    let mut sorted: Vec<usize> = Vec::new();
    let ghost mut seen: Seq<int> = Seq::empty();
    while rest.len() > 0
        invariant
            sorted@.map_values(|k: usize| k as int) == schemas_ranked(schemas@, seen, cue),
            seen + rest@.map_values(|k: usize| k as int) == full,
            forall|k: int| 0 <= k < rest@.len() ==> #[trigger] rest@[k] < schemas@.len(),
            forall|k: int| 0 <= k < sorted@.len() ==> #[trigger] sorted@[k] < schemas@.len(),
        decreases rest@.len(),
    {
        let ghost rv = rest@;
        let x = rest.remove(0);
        assert(x == rv[0]);
        proof {
            lemma_schemas_ranked_len(schemas@, seen, cue);
            lemma_schema_insert_pos_bound(schemas@, sorted@.map_values(|k: usize| k as int), x as int, cue);
            assert forall|k: int| 0 <= k < rest@.len() implies #[trigger] rest@[k] < schemas@.len() by {
                assert(rest@[k] == rv[k + 1]);
            }
        }
        let p = schema_find_pos(schemas, &sorted, x, cue);
        let ghost before = sorted@;
        sorted.insert(p, x);
        proof {
            assert(sorted@.map_values(|k: usize| k as int) =~= before.map_values(|k: usize| k as int).insert(p as int, x as int));
            assert(seen.push(x as int).drop_last() =~= seen);
            let s0 = seen;
            seen = seen.push(x as int);
            assert(seen + rest@.map_values(|k: usize| k as int) =~= s0 + rv.map_values(|k: usize| k as int));
            assert forall|k: int| 0 <= k < sorted@.len() implies #[trigger] sorted@[k] < schemas@.len() by {
                if k < p {
                    assert(sorted@[k] == before[k]);
                } else if k > p {
                    assert(sorted@[k] == before[k - 1]);
                }
            }
        }
    }
    assert(seen =~= full);
    sorted.truncate(policy.max_candidates as usize);
    let ghost idx = sorted@.map_values(|k: usize| k as int);
    assert(idx =~= route_candidate_indices(schemas@, cue, source_kind, context_hash, policy));
    let mut out: Vec<SchemaRouteCandidate> = Vec::new();
    let mut k: usize = 0;
    while k < sorted.len()
        invariant
            k <= sorted@.len(),
            idx == sorted@.map_values(|q: usize| q as int),
            idx == route_candidate_indices(schemas@, cue, source_kind, context_hash, policy),
            forall|q: int| 0 <= q < sorted@.len() ==> #[trigger] sorted@[q] < schemas@.len(),
            out@.len() == k,
            forall|q: int| 0 <= q < k ==> candidate_of(#[trigger] out@[q], schemas@[idx[q]], cue, policy),
        decreases sorted@.len() - k,
    {
        let s = &schemas[sorted[k]];
        out.push(SchemaRouteCandidate {
            schema_id: s.schema_id,
            source_kind: s.source_kind,
            schema_kind: s.schema_kind,
            entry_condition: copy_condition(&s.entry_condition),
            dependency_closure: copy_closure(&s.dependency_closure),
            precision_band: PrecisionBand::Balanced,
            fanout_cap: if s.decode_max_nodes <= policy.max_fanout { s.decode_max_nodes } else { policy.max_fanout },
            depth_cap: if s.decode_max_depth <= policy.max_depth { s.decode_max_depth } else { policy.max_depth },
            output_len: s.output_len,
            cue: s.cue,
            cue_overlap: cue.overlap_score(s.cue),
            cross_episode_support: support_exec(s),
            contradiction_burden: s.contradiction_burden,
            branch_consistency: consistency_exec(s),
            decode_burden: burden_exec(s),
        });
        k = k + 1;
    }
    out
}

// ---------------------------------------------------------------------------
// The promotion queue
// ---------------------------------------------------------------------------

#[derive(Debug, Clone, Copy, PartialEq, Eq, Default, Structural)]
pub struct SchemaPromotionQueueEntry {
    pub schema_id: SchemaId,
    pub source_kind: SourceKind,
    pub cross_episode_support: u32,
    pub topology_stability: u32,
    pub contradiction_burden: u32,
    pub branch_consistency: u32,
    pub decode_burden: u32,
    pub retire_after_failures: u32,
    pub lifecycle: ObjectLifecycleMeta,
    pub cue: SparseCue,
}

#[derive(Debug, Clone, PartialEq, Eq, Default)]
pub struct SchemaPromotionQueue {
    pub pending: Vec<SchemaPromotionQueueEntry>,
}

/// `a` waits strictly before `b`: more support, then fewer contradictions,
/// then more consistency, then more topology stability, then the smaller id.
pub open spec fn promotion_before(a: SchemaPromotionQueueEntry, b: SchemaPromotionQueueEntry) -> bool {
    if a.cross_episode_support != b.cross_episode_support {
        a.cross_episode_support > b.cross_episode_support
    } else if a.contradiction_burden != b.contradiction_burden {
        a.contradiction_burden < b.contradiction_burden
    } else if a.branch_consistency != b.branch_consistency {
        a.branch_consistency > b.branch_consistency
    } else if a.topology_stability != b.topology_stability {
        a.topology_stability > b.topology_stability
    } else {
        a.schema_id.0 < b.schema_id.0
    }
}

pub open spec fn promotion_insert_pos(s: Seq<SchemaPromotionQueueEntry>, x: SchemaPromotionQueueEntry) -> nat
    decreases s.len(),
{
    if s.len() == 0 {
        0
    } else if promotion_before(x, s[0]) {
        0
    } else {
        1 + promotion_insert_pos(s.drop_first(), x)
    }
}

/// The entries in queue order, equal ones in their original order.
pub open spec fn promotion_ordered(s: Seq<SchemaPromotionQueueEntry>) -> Seq<SchemaPromotionQueueEntry>
    decreases s.len(),
{
    if s.len() == 0 {
        s
    } else {
        let t = promotion_ordered(s.drop_last());
        t.insert(promotion_insert_pos(t, s.last()) as int, s.last())
    }
}

proof fn lemma_promotion_insert_pos_bound(s: Seq<SchemaPromotionQueueEntry>, x: SchemaPromotionQueueEntry)
    ensures
        promotion_insert_pos(s, x) <= s.len(),
    decreases s.len(),
{
    if s.len() > 0 {
        lemma_promotion_insert_pos_bound(s.drop_first(), x);
    }
}

proof fn lemma_promotion_ordered_len(s: Seq<SchemaPromotionQueueEntry>)
    ensures
        promotion_ordered(s).len() == s.len(),
    decreases s.len(),
{
    if s.len() > 0 {
        lemma_promotion_ordered_len(s.drop_last());
        lemma_promotion_insert_pos_bound(promotion_ordered(s.drop_last()), s.last());
    }
}

fn promotion_find_pos(v: &Vec<SchemaPromotionQueueEntry>, x: SchemaPromotionQueueEntry) -> (p: usize)
    ensures
        p == promotion_insert_pos(v@, x),
{
    let mut i: usize = 0;
    assert(v@.subrange(0, v@.len() as int) =~= v@);
    while i < v.len()
        invariant
            i <= v@.len(),
            promotion_insert_pos(v@, x) == i + promotion_insert_pos(v@.subrange(i as int, v@.len() as int), x),
        decreases v@.len() - i,
    {
        let e = v[i];
        proof {
            let rest = v@.subrange(i as int, v@.len() as int);
            assert(rest[0] == e);
            assert(rest.drop_first() =~= v@.subrange(i + 1, v@.len() as int));
        }
        let before = if x.cross_episode_support != e.cross_episode_support {
            x.cross_episode_support > e.cross_episode_support
        } else if x.contradiction_burden != e.contradiction_burden {
            x.contradiction_burden < e.contradiction_burden
        } else if x.branch_consistency != e.branch_consistency {
            x.branch_consistency > e.branch_consistency
        } else if x.topology_stability != e.topology_stability {
            x.topology_stability > e.topology_stability
        } else {
            x.schema_id.0 < e.schema_id.0
        };
        if before {
            return i;
        }
        i = i + 1;
    }
    proof {
        assert(v@.subrange(i as int, v@.len() as int).len() == 0);
    }
    i
}

/// An entry is ready for promotion with enough support and topology
/// stability, contradictions within four times the support plus the
/// consistency plus 16, and consistency at least half the contradictions.
pub open spec fn promotion_ready(e: SchemaPromotionQueueEntry, min_support: u32, min_topology_stability: u32) -> bool {
    let consistency: u32 = if e.branch_consistency >= 1 { e.branch_consistency } else { 1 };
    let half: u32 = if e.contradiction_burden / 2 >= 1 { e.contradiction_burden / 2 } else { 1 };
    let gate = sat_add_u32(sat_add_u32(sat_mul_u32(e.cross_episode_support, 4), consistency), 16);
    &&& e.cross_episode_support >= min_support
    &&& e.topology_stability >= min_topology_stability
    &&& e.contradiction_burden <= gate
    &&& consistency >= half
}

impl SchemaPromotionQueue {
    /// Adds an entry and puts the queue in order.
    pub fn push(&mut self, entry: SchemaPromotionQueueEntry)
        ensures
            final(self).pending@ == promotion_ordered(old(self).pending@.push(entry)),
    {
        self.pending.push(entry);
        let ghost full = self.pending@;
        let mut rest: Vec<SchemaPromotionQueueEntry> = Vec::new();
        std::mem::swap(&mut rest, &mut self.pending);
        let mut sorted: Vec<SchemaPromotionQueueEntry> = Vec::new();
        let ghost mut seen: Seq<SchemaPromotionQueueEntry> = Seq::empty();
        while rest.len() > 0
            invariant
                sorted@ == promotion_ordered(seen),
                seen + rest@ == full,
            decreases rest@.len(),
        {
            let x = rest.remove(0);
            proof {
                lemma_promotion_ordered_len(seen);
                lemma_promotion_insert_pos_bound(sorted@, x);
            }
            let p = promotion_find_pos(&sorted, x);
            sorted.insert(p, x);
            proof {
                assert(seen.push(x).drop_last() =~= seen);
                let s0 = seen;
                seen = seen.push(x);
                assert(seen + rest@ =~= s0 + (seq![x] + rest@));
            }
        }
        assert(seen =~= full);
        self.pending = sorted;
    }

    /// Takes out the entries ready for promotion, in queue order; the rest
    /// stay in order.
    pub fn promote_ready(&mut self, min_support: u32, min_topology_stability: u32) -> (promoted: Vec<SchemaPromotionQueueEntry>)
        ensures
            promoted@ == old(self).pending@.filter(|e: SchemaPromotionQueueEntry| promotion_ready(e, min_support, min_topology_stability)),
            final(self).pending@ == old(self).pending@.filter(|e: SchemaPromotionQueueEntry| !promotion_ready(e, min_support, min_topology_stability)),
    {
        let ghost src = self.pending@;
        let mut promoted: Vec<SchemaPromotionQueueEntry> = Vec::new();
        let mut retained: Vec<SchemaPromotionQueueEntry> = Vec::new();
        let mut i: usize = 0;
        while i < self.pending.len()
            invariant
                i <= src.len(),
                self.pending@ == src,
                promoted@ == src.take(i as int).filter(|e: SchemaPromotionQueueEntry| promotion_ready(e, min_support, min_topology_stability)),
                retained@ == src.take(i as int).filter(|e: SchemaPromotionQueueEntry| !promotion_ready(e, min_support, min_topology_stability)),
            decreases src.len() - i,
        {
            let e = self.pending[i];
            proof {
                assert(src.take(i + 1).drop_last() =~= src.take(i as int));
                reveal(Seq::filter);
            }
            let consistency: u32 = if e.branch_consistency >= 1 { e.branch_consistency } else { 1 };
            let half: u32 = if e.contradiction_burden / 2 >= 1 { e.contradiction_burden / 2 } else { 1 };
            let gate = saturating_mul_u32(e.cross_episode_support, 4).saturating_add(consistency).saturating_add(16);
            if e.cross_episode_support >= min_support && e.topology_stability >= min_topology_stability && e.contradiction_burden
                <= gate && consistency >= half {
                promoted.push(e);
            } else {
                retained.push(e);
            }
            i = i + 1;
        }
        assert(src.take(i as int) =~= src);
        self.pending = retained;
        promoted
    }
}

} // verus!
