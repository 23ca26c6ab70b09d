use shared_protocol::assembly::{AssemblyBody, AssemblyBodyNode, assembly_dependency_fingerprint, assembly_reuse_signature_from_parts};
use shared_protocol::chpmt::{
    ContextHash, DynamicFamilyId, MemoryPlane, ObjectDependency, ObjectKind, ObjectLifecycleMeta,
    ObjectVersion, PromotionLevel, SparseCue,
};
use shared_protocol::consolidation::{
    ConsolidationJob, ConsolidationQueue, DynamicFamilyAssignment, OntologyOperation,
    OntologyOperationKind, OntologyState,
};
use shared_protocol::episode::SchemaId;
use shared_protocol::episode_memory::{EpisodeReplayQueue, EpisodeReplayQueueEntry};
use shared_protocol::schema::{
    SchemaCandidatePolicy, SchemaGraph, SchemaPromotionQueue, SchemaPromotionQueueEntry,
    generate_schema_route_candidates,
};
use shared_protocol::source::SourceKind;

fn cue(bits: u64) -> SparseCue {
    SparseCue { family_bits: bits, role_bits: 0, delimiter_bits: 0, length_bucket_bits: 0, temporal_bits: 0 }
}

fn schema(id: u64, bits: u64, support: u32) -> SchemaGraph {
    let mut s = SchemaGraph::default();
    s.schema_id = SchemaId(id);
    s.cue = cue(bits);
    s.cross_episode_support = support;
    s.decode_max_depth = 2;
    s.decode_max_nodes = 3;
    s
}

#[test]
fn schema_candidates_are_filtered_and_ranked() {
    let mut other_kind = schema(4, 0xff, 100);
    other_kind.source_kind = SourceKind::Json;
    let mut too_deep = schema(5, 0xff, 100);
    too_deep.decode_max_depth = 9;
    let mut needs_context = schema(6, 0xff, 100);
    needs_context.entry_condition.required_context_hashes = vec![ContextHash(77)];
    let schemas = vec![schema(1, 0x0f, 2), schema(2, 0xff, 2), other_kind, too_deep, needs_context.clone(), schema(3, 0xff, 2)];
    let policy = SchemaCandidatePolicy::bounded_default();
    let out = generate_schema_route_candidates(&schemas, cue(0xff), SourceKind::Text, None, policy);
    // quality: overlap + support + consistency - burden/2; ties by overlap then id
    assert_eq!(out.len(), 3);
    assert_eq!(out[0].schema_id, SchemaId(2));
    assert_eq!(out[1].schema_id, SchemaId(3));
    assert_eq!(out[2].schema_id, SchemaId(1));
    assert_eq!(out[0].cue_overlap, 8);
    assert_eq!(out[0].decode_burden, 2);
    assert_eq!(out[0].fanout_cap, 3);
    let with_ctx = generate_schema_route_candidates(&schemas, cue(0xff), SourceKind::Text, Some(ContextHash(77)), policy);
    assert_eq!(with_ctx.len(), 4);
    assert_eq!(with_ctx[0].schema_id, SchemaId(6));
    let one = SchemaCandidatePolicy { max_candidates: 1, ..policy };
    assert_eq!(generate_schema_route_candidates(&schemas, cue(0xff), SourceKind::Text, None, one).len(), 1);
}

fn promo(id: u64, support: u32, burden: u32, stability: u32) -> SchemaPromotionQueueEntry {
    SchemaPromotionQueueEntry {
        schema_id: SchemaId(id),
        cross_episode_support: support,
        contradiction_burden: burden,
        topology_stability: stability,
        ..SchemaPromotionQueueEntry::default()
    }
}

#[test]
fn schema_promotion_queue_orders_and_promotes() {
    let mut q = SchemaPromotionQueue::default();
    q.push(promo(1, 3, 0, 5));
    q.push(promo(2, 9, 0, 5));
    q.push(promo(3, 9, 1, 5));
    assert_eq!(q.pending.iter().map(|e| e.schema_id.0).collect::<Vec<_>>(), vec![2, 3, 1]);
    // support 9 passes a minimum of 5, support 3 does not
    let promoted = q.promote_ready(5, 1);
    assert_eq!(promoted.iter().map(|e| e.schema_id.0).collect::<Vec<_>>(), vec![2, 3]);
    assert_eq!(q.pending.len(), 1);
    // contradictions well above the consistency gate keep an entry back
    q.push(promo(4, 9, 10, 5));
    let promoted = q.promote_ready(5, 1);
    assert!(promoted.is_empty());
}

fn job(id: u64, savings: u32, support: u32, ambiguity: u32) -> ConsolidationJob {
    ConsolidationJob { job_id: id, savings, support, ambiguity, ..ConsolidationJob::default() }
}

#[test]
fn consolidation_queue_orders_and_drains() {
    let mut q = ConsolidationQueue::default();
    q.push(job(1, 5, 1, 0));
    q.push(job(2, 9, 1, 0));
    q.push(job(3, 5, 4, 0));
    q.push(job(4, 5, 4, 2));
    assert_eq!(q.pending.iter().map(|j| j.job_id).collect::<Vec<_>>(), vec![2, 3, 4, 1]);
    let ready = q.drain_ready(2, 1);
    assert_eq!(ready.iter().map(|j| j.job_id).collect::<Vec<_>>(), vec![3]);
    assert_eq!(q.pending.iter().map(|j| j.job_id).collect::<Vec<_>>(), vec![2, 4, 1]);
}

#[test]
fn replay_queue_puts_surprise_first() {
    let mut q = EpisodeReplayQueue::default();
    q.push(EpisodeReplayQueueEntry { surprise: 1, reuse_potential: 0, ambiguity: 0, ..Default::default() });
    q.push(EpisodeReplayQueueEntry { surprise: 5, reuse_potential: 0, ambiguity: 3, ..Default::default() });
    q.push(EpisodeReplayQueueEntry { surprise: 5, reuse_potential: 0, ambiguity: 1, ..Default::default() });
    assert_eq!(q.pending.iter().map(|e| (e.surprise, e.ambiguity)).collect::<Vec<_>>(), vec![(5, 1), (5, 3), (1, 0)]);
}

fn family(id: u32, kinds: Vec<ObjectKind>, support: u32, created: u64) -> DynamicFamilyAssignment {
    let mut lifecycle = ObjectLifecycleMeta::blank();
    lifecycle.support_count = support;
    lifecycle.creation_tick = created;
    DynamicFamilyAssignment {
        family_id: DynamicFamilyId(id),
        subfamily_id: None,
        label: format!("f{}", id),
        source_kind: None,
        plane: MemoryPlane::default(),
        object_kinds: kinds,
        lifecycle,
    }
}

fn op(kind: OntologyOperationKind, target: u32, related: Vec<u32>) -> OntologyOperation {
    OntologyOperation {
        kind,
        plane: MemoryPlane::default(),
        target_family: DynamicFamilyId(target),
        related_families: related.into_iter().map(DynamicFamilyId).collect(),
        relabel_to: None,
        promote_to: None,
        retire: false,
    }
}

#[test]
fn ontology_merges_relabels_promotes_and_retires() {
    let mut state = OntologyState::default();
    state.families.insert(1, family(1, vec![ObjectKind::Assembly], 2, 5));
    state.families.insert(2, family(2, vec![ObjectKind::Assembly, ObjectKind::Schema], 3, 3));
    state.apply(op(OntologyOperationKind::Merge, 1, vec![2, 1, 9]));
    assert_eq!(state.families.len(), 1);
    let merged = state.families.get(1).unwrap();
    assert_eq!(merged.lifecycle.support_count, 5);
    assert_eq!(merged.lifecycle.creation_tick, 3);
    assert_eq!(merged.object_kinds, vec![ObjectKind::Assembly, ObjectKind::Schema]);
    assert_eq!(merged.label, "f1");

    let mut relabel = op(OntologyOperationKind::Relabel, 1, vec![]);
    relabel.relabel_to = Some("renamed".to_string());
    state.apply(relabel);
    assert_eq!(state.families.get(1).unwrap().label, "renamed");

    let mut promote = op(OntologyOperationKind::Promote, 1, vec![]);
    promote.promote_to = Some(PromotionLevel::Stable);
    state.apply(promote);
    assert_eq!(state.families.get(1).unwrap().lifecycle.promotion_level, PromotionLevel::Stable);

    // merging into an absent target renumbers the first related family
    state.families.insert(7, family(7, vec![], 1, 0));
    state.apply(op(OntologyOperationKind::Merge, 4, vec![7]));
    assert_eq!(state.families.get(4).unwrap().family_id, DynamicFamilyId(4));
    assert!(state.families.get(7).is_none());

    state.apply(op(OntologyOperationKind::Retire, 1, vec![]));
    assert!(state.families.get(1).is_none());
    assert_eq!(state.history.len(), 5);
}

fn dep(kind: ObjectKind, id: &str, rev: u32) -> ObjectDependency {
    ObjectDependency { object_kind: kind, object_id: id.to_string(), required_revision: rev }
}

#[test]
fn dependency_fingerprint_ignores_order() {
    let a = vec![dep(ObjectKind::Assembly, "b", 1), dep(ObjectKind::ExactBlock, "z", 2), dep(ObjectKind::Assembly, "a", 1)];
    let b = vec![dep(ObjectKind::Assembly, "a", 1), dep(ObjectKind::Assembly, "b", 1), dep(ObjectKind::ExactBlock, "z", 2)];
    assert_eq!(assembly_dependency_fingerprint(&a, false), assembly_dependency_fingerprint(&b, false));
    let c = vec![dep(ObjectKind::Assembly, "a", 2)];
    assert_ne!(assembly_dependency_fingerprint(&c, false), assembly_dependency_fingerprint(&[dep(ObjectKind::Assembly, "a", 1)], false));
    let body = AssemblyBody { nodes: vec![AssemblyBodyNode::LiteralIsland { bytes: b"abc".to_vec() }] };
    let sig = assembly_reuse_signature_from_parts(ObjectVersion { schema_version: 1, object_revision: 2 }, &body, &a, false);
    assert_eq!(sig.output_len, 3);
    assert_eq!(sig.dependency_fingerprint, assembly_dependency_fingerprint(&b, false));
    assert_eq!(sig.body_shape_hash, body.body_shape_hash());
}
