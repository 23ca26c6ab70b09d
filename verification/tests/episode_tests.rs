use shared_protocol::chpmt::{ContextHash, ControllerRouteFamily, LagBucket, ObjectKind};
use shared_protocol::episode::{
    BoundedContextModel, EpisodeActivationEvent, EpisodeObjectRef, derive_context_hash,
};
use shared_protocol::episode_completion::{
    EpisodeCandidatePolicy, generate_episode_completion_candidates,
};
use shared_protocol::episode_memory::EpisodeMemory;
use shared_protocol::extraction::derive_sparse_cue_from_bytes;
use shared_protocol::source::SourceKind;

fn event(tick: u64, object_kind: ObjectKind, object_id: &str, bytes: &[u8]) -> EpisodeActivationEvent {
    let source_kind = SourceKind::Text;
    let cue = derive_sparse_cue_from_bytes(source_kind, bytes);
    let object_ref = EpisodeObjectRef { object_kind, object_id: object_id.to_string() };
    let context_hash = derive_context_hash(cue, &object_ref, false);
    EpisodeActivationEvent { source_kind, object_ref, cue, context_hash, tick, success: true }
}

#[test]
fn sparse_episode_traces_apply_pattern_separation() {
    let mut memory = EpisodeMemory::default();
    let left = event(1, ObjectKind::ExactState, "item:left", b"alpha:one");
    let right = event(2, ObjectKind::ExactState, "item:right", b"alpha:two");
    memory.append_activation(left);
    memory.append_activation(right);

    assert_eq!(memory.hippocampal_shock.traces.len(), 2);
    assert_eq!(
        memory.hippocampal_shock.traces[0].family_partition,
        memory.hippocampal_shock.traces[1].family_partition
    );
    assert_ne!(
        memory.hippocampal_shock.traces[0].collision_slot,
        memory.hippocampal_shock.traces[1].collision_slot
    );
}

#[test]
fn episode_completion_uses_trace_overlap_route_support_and_recency() {
    let mut memory = EpisodeMemory::default();
    let seed = event(1, ObjectKind::ExactState, "item:seed", b"episode-seed");
    let target = event(4, ObjectKind::Assembly, "assembly:9", b"episode-target");
    memory.append_activation(seed);
    memory.append_activation(target.clone());
    memory.record_route_outcome(
        ControllerRouteFamily::EpisodeCompletion,
        Some(target.source_kind),
        Some(target.context_hash),
        4,
        true,
    );
    memory.append_activation(event(5, ObjectKind::ExactState, "item:seed-2", b"episode-seed"));

    let candidates = generate_episode_completion_candidates(&memory, EpisodeCandidatePolicy::bounded_default());
    assert!(!candidates.is_empty());
    assert_eq!(candidates[0].object_ref.object_id, "assembly:9");
    assert!(candidates[0].cue_overlap > 0);
    assert!(candidates[0].route_support > 0);
    assert!(candidates[0].recency_score > 0);
}

#[test]
fn working_trace_keeps_the_last_events_and_edges_link_nodes() {
    let mut memory = EpisodeMemory::default();
    memory.working_trace.max_events = 2;
    memory.append_activation(event(1, ObjectKind::ExactState, "a", b"one"));
    memory.append_activation(event(3, ObjectKind::ExactState, "b", b"two"));
    memory.append_activation(event(7, ObjectKind::ExactState, "c", b"three"));
    assert_eq!(memory.working_trace.events.len(), 2);
    assert_eq!(memory.working_trace.events[0].object_ref.object_id, "b");
    assert_eq!(memory.working_trace.events[1].object_ref.object_id, "c");
    assert_eq!(memory.short_episode.nodes.len(), 3);
    assert_eq!(memory.short_episode.nodes[2].node_id.0, 3);
    assert_eq!(memory.short_episode.edges.len(), 2);
    let edge = memory.short_episode.edges[1];
    assert_eq!(edge.edge_id.0, 2);
    assert_eq!(edge.from_node.0, 2);
    assert_eq!(edge.to_node.0, 3);
    // ticks 3 then 7: a distance of 4 falls in the third lag bucket
    assert_eq!(edge.lag_bucket, LagBucket(2));
    assert_eq!(edge.transition_count.0, 1);
    assert_eq!(memory.clustered_episode.clusters.len(), 2);
}

#[test]
fn recent_context_hashes_follow_the_model_order() {
    let mut memory = EpisodeMemory::default();
    for tick in 1..=6u64 {
        memory.append_activation(event(tick, ObjectKind::ExactState, &format!("o{}", tick), b"x"));
    }
    let window = memory.recent_context_hashes();
    assert_eq!(window.len(), 4);
    assert_eq!(window[3], memory.working_trace.events[5].context_hash);
    assert_eq!(window[0], memory.working_trace.events[2].context_hash);
}

#[test]
fn decays_trim_each_store() {
    let mut memory = EpisodeMemory::default();
    for tick in 1..=5u64 {
        memory.append_activation(event(tick, ObjectKind::ExactState, &format!("o{}", tick), &[tick as u8; 3]));
    }
    memory.decay_working_trace(2);
    assert_eq!(memory.working_trace.events.len(), 2);
    assert_eq!(memory.working_trace.events[1].tick, 5);
    memory.decay_short_episode(3);
    assert_eq!(memory.short_episode.nodes.len(), 3);
    assert_eq!(memory.short_episode.edges.len(), 3);
    assert_eq!(memory.hippocampal_shock.traces.len(), 3);
    let before = memory.clustered_episode.clusters.len();
    memory.decay_clustered_episode(1);
    assert!(before >= 1);
    assert_eq!(memory.clustered_episode.clusters.len(), 1);
}

#[test]
fn route_outcome_reinforces_the_newest_matching_trace() {
    let mut memory = EpisodeMemory::default();
    let e = event(3, ObjectKind::Assembly, "assembly:1", b"payload");
    memory.append_activation(e.clone());
    let salience = memory.hippocampal_shock.traces[0].salience;
    memory.record_route_outcome(ControllerRouteFamily::Assembly, Some(SourceKind::Text), Some(e.context_hash), 9, true);
    let t = &memory.hippocampal_shock.traces[0];
    assert_eq!(t.salience, salience + 24);
    assert_eq!(t.support_count, 2);
    assert_eq!(t.recency_tick, 9);
    assert_eq!(t.route_wins.total_successes, 1);
    // a second success on the same route is no longer a first win
    memory.record_route_outcome(ControllerRouteFamily::Assembly, None, None, 9, true);
    assert_eq!(memory.hippocampal_shock.traces[0].salience, salience + 32);
    // a failure adds 2 and leaves the support alone
    memory.record_route_outcome(ControllerRouteFamily::Assembly, None, None, 9, false);
    assert_eq!(memory.hippocampal_shock.traces[0].salience, salience + 34);
    assert_eq!(memory.hippocampal_shock.traces[0].support_count, 3);
    // a trace newer than the outcome does not match
    memory.record_route_outcome(ControllerRouteFamily::Assembly, None, Some(ContextHash(12345)), 9, false);
    assert_eq!(memory.hippocampal_shock.traces[0].salience, salience + 34);
}

#[test]
fn context_model_predicts_the_most_seen_continuation() {
    let mut model = BoundedContextModel::bounded(2, 3);
    let a = EpisodeObjectRef { object_kind: ObjectKind::Assembly, object_id: "assembly:1".to_string() };
    let b = EpisodeObjectRef { object_kind: ObjectKind::Schema, object_id: "s".to_string() };
    let ctx = vec![ContextHash(1), ContextHash(2)];
    model.observe(&ctx, &a);
    model.observe(&ctx, &b);
    model.observe(&ctx, &b);
    let p = model.predict_next_kind(&ctx);
    assert_eq!(p.len(), 2);
    assert_eq!(p[0].predicted_object_id, "s");
    assert_eq!(p[0].predicted_kind, ObjectKind::Schema);
    // two suffixes (length 1 and 2) each count the object twice
    assert_eq!(p[0].transition_count.0, 4);
    assert_eq!(p[0].branch_rank.0, 0);
    assert_eq!(p[1].predicted_object_id, "assembly:1");
    assert_eq!(p[1].transition_count.0, 2);
    assert_eq!(p[0].context_hash, ContextHash(2));
}
