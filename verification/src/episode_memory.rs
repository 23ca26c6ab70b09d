//! The episode memory: the working trace of recent activations, the short
//! episode graph of nodes and edges, the edges clustered by context, the
//! sparse trace store and the context model, kept together as activations
//! and route outcomes arrive.

use vstd::prelude::*;
use crate::chpmt::{ContextHash, ControllerRouteFamily, LagBucket, ObjectLifecycleMeta};
use crate::episode::{
    BoundedContextModel, BranchRank, EpisodeActivationEvent, EpisodeEdge, EpisodeEdgeId,
    EpisodeNode, EpisodeNodeId, EpisodeObjectRef, EpisodeRouteWinTrace, HippocampalShockMemory,
    SparseEpisodeTrace, TransitionCount, copy_ref, ingested, opt_event, lag_between, lag_between_exec,
    model_observe, model_view, plane_for_kind, plane_for_object_kind, rank_and_trim, same_ref,
    suffix_start, traces_all_wf, traces_ranked,
};
use crate::index::{bytes_less, bytes_lex_lt, decimal};
use crate::keyed::{U64Map, has_key};
use crate::num::sat_add_u32;
use crate::source::SourceKind;

verus! {

/// The last `n` items of `s`, or all of them when there are fewer.
pub open spec fn keep_last<T>(s: Seq<T>, n: nat) -> Seq<T> {
    if s.len() > n {
        s.subrange(s.len() - n, s.len() as int)
    } else {
        s
    }
}

fn keep_last_vec<T>(v: &mut Vec<T>, n: usize)
    ensures
        final(v)@ == keep_last(old(v)@, n as nat),
{
    if v.len() > n {
        let drop = v.len() - n;
        let tail = v.split_off(drop);
        *v = tail;
    }
}

/// The most recent activations, at most `max_events`.
#[derive(Debug, Clone, PartialEq, Eq)]
pub struct WorkingTraceMemory {
    pub max_events: usize,
    pub events: Vec<EpisodeActivationEvent>,
}

/// The episode graph: a node per activation, an edge from each node to the
/// next, at most `max_nodes` nodes.
#[derive(Debug, Clone, PartialEq, Eq)]
pub struct ShortEpisodeMemory {
    pub max_nodes: usize,
    pub nodes: Vec<EpisodeNode>,
    pub edges: Vec<EpisodeEdge>,
}

/// The edges filed by the context hash they were made in, at most
/// `max_contexts` contexts.
#[derive(Debug, Clone, PartialEq, Eq)]
pub struct ClusteredEpisodeMemory {
    pub max_contexts: usize,
    pub clusters: U64Map<Vec<EpisodeEdge>>,
}

#[derive(Debug, Clone, PartialEq, Eq)]
pub struct EpisodeMemory {
    pub working_trace: WorkingTraceMemory,
    pub short_episode: ShortEpisodeMemory,
    pub clustered_episode: ClusteredEpisodeMemory,
    pub hippocampal_shock: HippocampalShockMemory,
    pub context_model: BoundedContextModel,
}

impl Default for BoundedContextModel {
    fn default() -> (m: Self)
        ensures
            m.max_order == 4,
            m.max_branches_per_context == 8,
            m.transition_counts@.len() == 0,
    {
        BoundedContextModel::bounded(4, 8)
    }
}

impl Default for WorkingTraceMemory {
    fn default() -> (m: Self)
        ensures
            m.max_events == 32,
            m.events@.len() == 0,
    {
        WorkingTraceMemory { max_events: 32, events: Vec::new() }
    }
}

impl Default for ShortEpisodeMemory {
    fn default() -> (m: Self)
        ensures
            m.max_nodes == 128,
            m.nodes@.len() == 0,
            m.edges@.len() == 0,
    {
        ShortEpisodeMemory { max_nodes: 128, nodes: Vec::new(), edges: Vec::new() }
    }
}

impl Default for ClusteredEpisodeMemory {
    fn default() -> (m: Self)
        ensures
            m.max_contexts == 64,
            m.clusters.wf(),
            m.clusters@.len() == 0,
    {
        ClusteredEpisodeMemory { max_contexts: 64, clusters: U64Map::new() }
    }
}

impl Default for EpisodeMemory {
    fn default() -> (m: Self)
        ensures
            m.wf(),
            m.is_empty_bounded(),
    {
        Self::bounded()
    }
}

// ---------------------------------------------------------------------------
// Edges between nodes
// ---------------------------------------------------------------------------

/// How many of the edges run from `from` to `to`.
pub open spec fn edge_count(edges: Seq<EpisodeEdge>, from: EpisodeNodeId, to: EpisodeNodeId) -> nat
    decreases edges.len(),
{
    if edges.len() == 0 {
        0
    } else {
        edge_count(edges.drop_last(), from, to) + if edges.last().from_node == from && edges.last().to_node == to {
            1nat
        } else {
            0nat
        }
    }
}

proof fn lemma_edge_count_bound(edges: Seq<EpisodeEdge>, from: EpisodeNodeId, to: EpisodeNodeId)
    ensures
        edge_count(edges, from, to) <= edges.len(),
    decreases edges.len(),
{
    if edges.len() > 0 {
        lemma_edge_count_bound(edges.drop_last(), from, to);
    }
}

/// The number of edges from `from_node` to `to_node`, truncated to 32 bits.
fn edge_transition_count(from_node: EpisodeNodeId, to_node: EpisodeNodeId, edges: &Vec<EpisodeEdge>) -> (n: u32)
    ensures
        n == edge_count(edges@, from_node, to_node) as u32,
{
    let mut count: usize = 0;
    let mut i: usize = 0;
    while i < edges.len()
        invariant
            i <= edges@.len(),
            count == edge_count(edges@.take(i as int), from_node, to_node),
        decreases edges@.len() - i,
    {
        proof {
            assert(edges@.take(i + 1).drop_last() =~= edges@.take(i as int));
            lemma_edge_count_bound(edges@.take(i as int), from_node, to_node);
        }
        if edges[i].from_node.0 == from_node.0 && edges[i].to_node.0 == to_node.0 {
            count = count + 1;
        }
        i = i + 1;
    }
    assert(edges@.take(i as int) =~= edges@);
    count as u32
}

/// Edge `i` is the first among the edges from its node to its target.
pub open spec fn first_to_target(edges: Seq<EpisodeEdge>, i: int) -> bool {
    forall|j: int| 0 <= j < i ==> !(#[trigger] edges[j].from_node == edges[i].from_node && edges[j].to_node == edges[i].to_node)
}

/// Among the first `n` edges, how many distinct targets of `from` have a
/// decimal id that sorts before `next` in byte order.
pub open spec fn branch_count(edges: Seq<EpisodeEdge>, from: EpisodeNodeId, next: Seq<u8>, n: nat) -> nat
    decreases n,
{
    if n == 0 {
        0
    } else {
        let i = n - 1;
        branch_count(edges, from, next, (n - 1) as nat) + if edges[i].from_node == from && first_to_target(edges, i)
            && bytes_lex_lt(vstd::utf8::encode_utf8(decimal(edges[i].to_node.0 as nat)), next) {
            1nat
        } else {
            0nat
        }
    }
}

proof fn lemma_branch_count_bound(edges: Seq<EpisodeEdge>, from: EpisodeNodeId, next: Seq<u8>, n: nat)
    ensures
        branch_count(edges, from, next, n) <= n,
    decreases n,
{
    if n > 0 {
        lemma_branch_count_bound(edges, from, next, (n - 1) as nat);
    }
}

/// std's `to_string` of a `u64`: its decimal digits, with no sign or padding.
#[verifier::external_body]
fn decimal_string(n: u64) -> (s: String)
    ensures
        s@ == decimal(n as nat),
{
    n.to_string()
}

fn is_first_to_target(edges: &Vec<EpisodeEdge>, i: usize) -> (b: bool)
    requires
        i < edges@.len(),
    ensures
        b == first_to_target(edges@, i as int),
{
    let mut j: usize = 0;
    while j < i
        invariant
            i < edges@.len(),
            j <= i,
            forall|k: int| 0 <= k < j ==> !(#[trigger] edges@[k].from_node == edges@[i as int].from_node && edges@[k].to_node == edges@[i as int].to_node),
        decreases i - j,
    {
        if edges[j].from_node.0 == edges[i].from_node.0 && edges[j].to_node.0 == edges[i].to_node.0 {
            return false;
        }
        j = j + 1;
    }
    true
}

/// The rank of `next` among the branches out of `from_node`: how many
/// distinct targets have a decimal id that sorts before `next`'s id.
fn rank_branch(from_node: EpisodeNodeId, next: &EpisodeObjectRef, edges: &Vec<EpisodeEdge>) -> (r: BranchRank)
    ensures
        r.0 == branch_count(edges@, from_node, vstd::utf8::encode_utf8(next.object_id@), edges@.len()) as u16,
{
    let ghost next_bytes = vstd::utf8::encode_utf8(next.object_id@);
    let mut count: usize = 0;
    let mut i: usize = 0;
    while i < edges.len()
        invariant
            i <= edges@.len(),
            next_bytes == vstd::utf8::encode_utf8(next.object_id@),
            count == branch_count(edges@, from_node, next_bytes, i as nat),
        decreases edges@.len() - i,
    {
        proof {
            lemma_branch_count_bound(edges@, from_node, next_bytes, i as nat);
        }
        if edges[i].from_node.0 == from_node.0 && is_first_to_target(edges, i) {
            let key = decimal_string(edges[i].to_node.0);
            if bytes_less(key.as_str().as_bytes(), next.object_id.as_str().as_bytes()) {
                count = count + 1;
            }
        }
        i = i + 1;
    }
    BranchRank(count as u16)
}

// ---------------------------------------------------------------------------
// The memory
// ---------------------------------------------------------------------------

impl EpisodeMemory {
    /// The clusters are a well-formed map and every trace's route wins are
    /// well formed.
    pub open spec fn wf(&self) -> bool {
        &&& self.clustered_episode.clusters.wf()
        &&& traces_all_wf(self.hippocampal_shock.traces@)
    }

    /// Empty, with the default bounds: 32 events, 128 nodes, 64 contexts,
    /// 256 traces in 32 collision slots, context order 4 with 8 branches.
    pub open spec fn is_empty_bounded(&self) -> bool {
        &&& self.working_trace.max_events == 32
        &&& self.working_trace.events@.len() == 0
        &&& self.short_episode.max_nodes == 128
        &&& self.short_episode.nodes@.len() == 0
        &&& self.short_episode.edges@.len() == 0
        &&& self.clustered_episode.max_contexts == 64
        &&& self.clustered_episode.clusters@.len() == 0
        &&& self.hippocampal_shock.max_traces == 256
        &&& self.hippocampal_shock.max_collision_slots == 32
        &&& self.hippocampal_shock.traces@.len() == 0
        &&& self.context_model.max_order == 4
        &&& self.context_model.max_branches_per_context == 8
        &&& self.context_model.transition_counts@.len() == 0
    }

    pub fn bounded() -> (m: Self)
        ensures
            m.wf(),
            m.is_empty_bounded(),
    {
        EpisodeMemory {
            working_trace: WorkingTraceMemory { max_events: 32, events: Vec::new() },
            short_episode: ShortEpisodeMemory { max_nodes: 128, nodes: Vec::new(), edges: Vec::new() },
            clustered_episode: ClusteredEpisodeMemory { max_contexts: 64, clusters: U64Map::new() },
            hippocampal_shock: HippocampalShockMemory::default(),
            context_model: BoundedContextModel::bounded(4, 8),
        }
    }
}

/// The context hashes of the last `max_order` events, oldest first.
pub open spec fn window_of(events: Seq<EpisodeActivationEvent>, max_order: u8) -> Seq<ContextHash> {
    keep_last(events.map_values(|e: EpisodeActivationEvent| e.context_hash), max_order as nat)
}

/// The last event, if any.
pub open spec fn last_event(events: Seq<EpisodeActivationEvent>) -> Option<EpisodeActivationEvent> {
    if events.len() > 0 {
        Some(events.last())
    } else {
        None
    }
}

/// The event before the last, if any.
pub open spec fn previous_event(events: Seq<EpisodeActivationEvent>) -> Option<EpisodeActivationEvent> {
    if events.len() >= 2 {
        Some(events[events.len() - 2])
    } else {
        None
    }
}

/// The node an activation makes, with id `id`.
pub open spec fn is_event_node(n: EpisodeNode, id: u64, e: EpisodeActivationEvent) -> bool {
    &&& n.node_id == EpisodeNodeId(id)
    &&& n.plane == plane_for_kind(e.object_ref.object_kind)
    &&& n.source_kind == e.source_kind
    &&& same_ref(n.object_ref, e.object_ref)
    &&& n.context_hash == e.context_hash
    &&& n.lifecycle == ObjectLifecycleMeta::blank_spec().seen(e.tick, e.success)
}

/// The edge an activation makes from node `prev` to node `to`, after
/// `edges`: the next edge id, the lag from the previous activation, the
/// count of such edges so far plus one, and the rank of the object among
/// the branches out of `prev`.
pub open spec fn event_edge(
    edges: Seq<EpisodeEdge>,
    prev: EpisodeNodeId,
    to: EpisodeNodeId,
    e: EpisodeActivationEvent,
    prev_event: Option<EpisodeActivationEvent>,
) -> EpisodeEdge {
    EpisodeEdge {
        edge_id: EpisodeEdgeId((edges.len() + 1) as u64),
        from_node: prev,
        to_node: to,
        lag_bucket: match prev_event {
            Some(p) => lag_between(e, p),
            None => LagBucket(0),
        },
        transition_count: TransitionCount(sat_add_u32(edge_count(edges, prev, to) as u32, 1)),
        branch_rank: BranchRank(
            branch_count(edges, prev, vstd::utf8::encode_utf8(e.object_ref.object_id@), edges.len()) as u16,
        ),
        context_hash: e.context_hash,
        lifecycle: ObjectLifecycleMeta::blank_spec().seen(e.tick, e.success),
    }
}

/// The edges of cluster `k` in `m`, empty when there is none.
pub open spec fn cluster_of(m: Map<u64, Vec<EpisodeEdge>>, k: u64) -> Seq<EpisodeEdge> {
    if m.contains_key(k) {
        m[k]@
    } else {
        Seq::empty()
    }
}

/// `k` is the smallest key of `m`.
pub open spec fn is_min_key<V>(m: Map<u64, V>, k: u64) -> bool {
    &&& m.contains_key(k)
    &&& forall|j: u64| #[trigger] m.contains_key(j) ==> k <= j
}

/// The clusters `n` are `o` with edge `g` filed under context `k`, and the
/// smallest context dropped when that makes more than `max` contexts.
pub open spec fn filed_edge(o: U64Map<Vec<EpisodeEdge>>, n: U64Map<Vec<EpisodeEdge>>, k: u64, g: EpisodeEdge, max: usize) -> bool {
    let grown = o@.len() + if has_key(o@, k) { 0int } else { 1int };
    &&& n.wf()
    &&& exists|added: Map<u64, Vec<EpisodeEdge>>| {
        &&& added.dom() == o.map().dom().insert(k)
        &&& forall|j: u64| #[trigger] added.contains_key(j) && j != k ==> added[j] == o.map()[j]
        &&& added[k]@ == cluster_of(o.map(), k).push(g)
        &&& if grown > max {
            exists|least: u64| is_min_key(added, least) && n.map() == added.remove(least) && n@.len() == grown - 1
        } else {
            n.map() == added && n@.len() == grown
        }
    }
}

impl EpisodeMemory {
    /// The context hashes of the last `max_order` activations, oldest first.
    pub fn recent_context_hashes(&self) -> (w: Vec<ContextHash>)
        ensures
            w@ == window_of(self.working_trace.events@, self.context_model.max_order),
    {
        let events = &self.working_trace.events;
        let n = self.context_model.max_order as usize;
        let start: usize = if events.len() > n { events.len() - n } else { 0 };
        let ghost hashes = events@.map_values(|e: EpisodeActivationEvent| e.context_hash);
        let mut w: Vec<ContextHash> = Vec::new();
        let mut i = start;
        while i < events.len()
            invariant
                start <= i <= events@.len(),
                hashes == events@.map_values(|e: EpisodeActivationEvent| e.context_hash),
                w@ == hashes.subrange(start as int, i as int),
            decreases events@.len() - i,
        {
            w.push(events[i].context_hash);
            i = i + 1;
            assert(w@ =~= hashes.subrange(start as int, i as int));
        }
        assert(w@ =~= window_of(events@, self.context_model.max_order));
        w
    }

    /// The activation before the last, if there are two.
    fn previous_working_event(&self) -> (r: Option<&EpisodeActivationEvent>)
        ensures
            match r {
                Some(p) => previous_event(self.working_trace.events@) == Some(*p),
                None => previous_event(self.working_trace.events@) is None,
            },
    {
        let n = self.working_trace.events.len();
        if n >= 2 {
            Some(&self.working_trace.events[n - 2])
        } else {
            None
        }
    }
}

/// Files edge `g` under context `k`, dropping the smallest context when that
/// makes more than `max`.
fn file_edge(clusters: &mut U64Map<Vec<EpisodeEdge>>, k: u64, g: EpisodeEdge, max: usize)
    requires
        old(clusters).wf(),
    ensures
        filed_edge(*old(clusters), *final(clusters), k, g, max),
{
    let ghost o = *clusters;
    let existing = clusters.remove(k);
    let mut list: Vec<EpisodeEdge> = match existing {
        Some(v) => v,
        None => Vec::new(),
    };
    assert(list@ == cluster_of(o.map(), k));
    list.push(g);
    let ghost list_v = list;
    let ghost removed = *clusters;
    clusters.insert(k, list);
    let ghost added = clusters.map();
    proof {
        assert(has_key(o@, k) == o.map().contains_key(k));
        assert(!has_key(removed@, k)) by {
            assert(!removed.map().contains_key(k));
        }
        assert(added.dom() =~= o.map().dom().insert(k));
        assert(added[k] == list_v);
    }
    if clusters.len() > max {
        let ghost before = *clusters;
        let first = clusters.remove_first();
        proof {
            let least = before@[0].0;
            crate::keyed::lemma_entries_map_at(before@, 0);
            assert forall|j: u64| #[trigger] added.contains_key(j) implies least <= j by {
                if j != least {
                    assert(clusters.map().contains_key(j));
                }
            }
            assert(is_min_key(added, least));
            assert(clusters.map() == added.remove(least));
        }
    }
}

/// The memory `n` is `o` after the activation `e`: the event joins the
/// working trace (the oldest dropped past the limit); the trace store files
/// it after the previous event; the context model counts its object after
/// the new window of context hashes; a node for it joins the episode graph;
/// and when there is a node before it, an edge from that node to the new
/// one joins the graph and the cluster of its context.
pub open spec fn appended(o: EpisodeMemory, n: EpisodeMemory, e: EpisodeActivationEvent) -> bool {
    let events = keep_last(o.working_trace.events@.push(e), o.working_trace.max_events as nat);
    let window = window_of(events, o.context_model.max_order);
    let node_id = (o.short_episode.nodes@.len() + 1) as u64;
    let nodes = n.short_episode.nodes@;
    &&& n.working_trace.max_events == o.working_trace.max_events
    &&& n.working_trace.events@ == events
    &&& ingested(o.hippocampal_shock, n.hippocampal_shock, e, last_event(o.working_trace.events@))
    &&& n.context_model.max_order == o.context_model.max_order
    &&& n.context_model.max_branches_per_context == o.context_model.max_branches_per_context
    &&& model_view(n.context_model.transition_counts@) == model_observe(
        model_view(o.context_model.transition_counts@),
        window,
        suffix_start(window.len(), o.context_model.max_order),
        window.len(),
        e.object_ref.object_kind,
        e.object_ref.object_id@,
    )
    &&& n.short_episode.max_nodes == o.short_episode.max_nodes
    &&& n.clustered_episode.max_contexts == o.clustered_episode.max_contexts
    &&& exists|node: EpisodeNode| {
        &&& is_event_node(node, node_id, e)
        &&& nodes == keep_last(o.short_episode.nodes@.push(node), o.short_episode.max_nodes as nat)
    }
    &&& if nodes.len() >= 2 {
        let g = event_edge(
            o.short_episode.edges@,
            nodes[nodes.len() - 2].node_id,
            EpisodeNodeId(node_id),
            e,
            last_event(o.working_trace.events@),
        );
        &&& n.short_episode.edges@ == o.short_episode.edges@.push(g)
        &&& filed_edge(o.clustered_episode.clusters, n.clustered_episode.clusters, e.context_hash.0, g, o.clustered_episode.max_contexts)
    } else {
        &&& n.short_episode.edges == o.short_episode.edges
        &&& n.clustered_episode.clusters == o.clustered_episode.clusters
    }
}

impl EpisodeMemory {
    /// Takes in one activation; see `appended`.
    pub fn append_activation(&mut self, event: EpisodeActivationEvent)
        requires
            old(self).wf(),
        ensures
            final(self).wf(),
            appended(*old(self), *final(self), event),
    {
        let n_nodes = self.short_episode.nodes.len() as u64;
        let node_id: u64 = if n_nodes < 0xffff_ffff_ffff_ffffu64 { n_nodes + 1 } else { 0 };
        proof {
            if n_nodes == 0xffff_ffff_ffff_ffffu64 {
                assert(((n_nodes as int) + 1) as u64 == 0u64) by (bit_vector)
                    requires
                        n_nodes == 0xffff_ffff_ffff_ffffu64;
            }
        }
        let ev_len = self.working_trace.events.len();
        let prev: Option<&EpisodeActivationEvent> = if ev_len > 0 {
            Some(&self.working_trace.events[ev_len - 1])
        } else {
            None
        };
        let lag = match prev {
            Some(p) => lag_between_exec(&event, p),
            None => LagBucket(0),
        };
        self.hippocampal_shock.ingest(&event, prev);
        let obj = copy_ref(&event.object_ref);
        let ctx = event.context_hash;
        let tick = event.tick;
        let success = event.success;
        let node = EpisodeNode {
            node_id: EpisodeNodeId(node_id),
            plane: plane_for_object_kind(event.object_ref.object_kind),
            source_kind: event.source_kind,
            object_ref: copy_ref(&event.object_ref),
            context_hash: ctx,
            lifecycle: ObjectLifecycleMeta::blank().record_seen(tick, success),
        };
        let ghost nd = node;
        self.working_trace.events.push(event);
        let max_events = self.working_trace.max_events;
        keep_last_vec(&mut self.working_trace.events, max_events);
        self.short_episode.nodes.push(node);
        let max_nodes = self.short_episode.max_nodes;
        keep_last_vec(&mut self.short_episode.nodes, max_nodes);
        let window = self.recent_context_hashes();
        self.context_model.observe(&window, &obj);
        let len = self.short_episode.nodes.len();
        if len >= 2 {
            let prev_id = self.short_episode.nodes[len - 2].node_id;
            let to = EpisodeNodeId(node_id);
            let rank = rank_branch(prev_id, &obj, &self.short_episode.edges);
            let count = edge_transition_count(prev_id, to, &self.short_episode.edges);
            let n_edges = self.short_episode.edges.len() as u64;
            let edge_id: u64 = if n_edges < 0xffff_ffff_ffff_ffffu64 { n_edges + 1 } else { 0 };
            proof {
                if n_edges == 0xffff_ffff_ffff_ffffu64 {
                    assert(((n_edges as int) + 1) as u64 == 0u64) by (bit_vector)
                        requires
                            n_edges == 0xffff_ffff_ffff_ffffu64;
                }
            }
            let g = EpisodeEdge {
                edge_id: EpisodeEdgeId(edge_id),
                from_node: prev_id,
                to_node: to,
                lag_bucket: lag,
                transition_count: TransitionCount(count.saturating_add(1)),
                branch_rank: rank,
                context_hash: ctx,
                lifecycle: ObjectLifecycleMeta::blank().record_seen(tick, success),
            };
            self.short_episode.edges.push(g);
            let max_contexts = self.clustered_episode.max_contexts;
            file_edge(&mut self.clustered_episode.clusters, ctx.0, g, max_contexts);
        }
        proof {
            assert(is_event_node(nd, node_id, event));
        }
    }
}

/// The trace passes an outcome's filters: its source and its context where
/// they are given, and it is not newer than the outcome.
pub open spec fn outcome_matches(t: SparseEpisodeTrace, source: Option<SourceKind>, ctx: Option<ContextHash>, tick: u64) -> bool {
    &&& match source {
        Some(k) => k == t.source_kind,
        None => true,
    }
    &&& match ctx {
        Some(h) => h == t.lookup_key.context_hash,
        None => true,
    }
    &&& t.recency_tick <= tick
}

/// The index of the newest of the first `n` traces that passes the filters.
pub open spec fn newest_match(traces: Seq<SparseEpisodeTrace>, source: Option<SourceKind>, ctx: Option<ContextHash>, tick: u64, n: nat) -> Option<nat>
    decreases n,
{
    if n == 0 {
        None
    } else if outcome_matches(traces[n - 1], source, ctx, tick) {
        Some((n - 1) as nat)
    } else {
        newest_match(traces, source, ctx, tick, (n - 1) as nat)
    }
}

proof fn lemma_newest_match_bound(traces: Seq<SparseEpisodeTrace>, source: Option<SourceKind>, ctx: Option<ContextHash>, tick: u64, n: nat)
    ensures
        newest_match(traces, source, ctx, tick, n) matches Some(i) ==> i < n,
    decreases n,
{
    if n > 0 {
        lemma_newest_match_bound(traces, source, ctx, tick, (n - 1) as nat);
    }
}

/// Trace `n` is `o` reinforced by an outcome of `route` at `tick`: the
/// outcome recorded in its route wins, its recency raised to `tick`, its
/// salience raised by 24 for a route's first win, 8 for another success
/// and 2 for a failure, and its support by one for a success.
pub open spec fn reinforced(o: SparseEpisodeTrace, n: SparseEpisodeTrace, route: ControllerRouteFamily, success: bool, tick: u64) -> bool {
    let first_win = success && EpisodeRouteWinTrace::count_in(o.route_wins.success_by_route.map(), route) == 0;
    let bonus: u32 = if first_win { 24 } else if success { 8 } else { 2 };
    &&& n.route_wins.wf()
    &&& EpisodeRouteWinTrace::recorded(o.route_wins, n.route_wins, route, success, first_win)
    &&& n == (SparseEpisodeTrace {
        route_wins: n.route_wins,
        recency_tick: if o.recency_tick >= tick { o.recency_tick } else { tick },
        salience: sat_add_u32(o.salience, bonus),
        support_count: if success { sat_add_u32(o.support_count, 1) } else { o.support_count },
        ..o
    })
}

/// Trace `n` is `o` credited with a win of `route` at `tick`: the win
/// recorded, salience up by 24, support up by one, recency set to `tick`.
pub open spec fn credited(o: SparseEpisodeTrace, n: SparseEpisodeTrace, route: ControllerRouteFamily, tick: u64) -> bool {
    let first_win = EpisodeRouteWinTrace::count_in(o.route_wins.success_by_route.map(), route) == 0;
    &&& n.route_wins.wf()
    &&& EpisodeRouteWinTrace::recorded(o.route_wins, n.route_wins, route, true, first_win)
    &&& n == (SparseEpisodeTrace {
        route_wins: n.route_wins,
        recency_tick: tick,
        salience: sat_add_u32(o.salience, 24),
        support_count: sat_add_u32(o.support_count, 1),
        ..o
    })
}

/// The store `n` is `o` with trace `i` replaced by one related to it by `p`.
pub open spec fn one_trace_changed(o: Seq<SparseEpisodeTrace>, n: Seq<SparseEpisodeTrace>, i: int) -> bool {
    &&& 0 <= i < o.len()
    &&& n.len() == o.len()
    &&& forall|k: int| 0 <= k < o.len() && k != i ==> #[trigger] n[k] == o[k]
}

/// The memory `n` is `o` after an outcome of `route`: the newest trace that
/// passes the filters is reinforced; when none does and the outcome is a
/// success, the last activation is filed again in the trace store and the
/// last trace is credited with the win; only the trace store changes.
pub open spec fn outcome_recorded(
    o: EpisodeMemory,
    n: EpisodeMemory,
    route: ControllerRouteFamily,
    source: Option<SourceKind>,
    ctx: Option<ContextHash>,
    tick: u64,
    success: bool,
) -> bool {
    let traces = o.hippocampal_shock.traces@;
    let events = o.working_trace.events@;
    &&& n.working_trace == o.working_trace
    &&& n.short_episode == o.short_episode
    &&& n.clustered_episode == o.clustered_episode
    &&& n.context_model == o.context_model
    &&& match newest_match(traces, source, ctx, tick, traces.len()) {
        Some(i) => {
            &&& n.hippocampal_shock.max_traces == o.hippocampal_shock.max_traces
            &&& n.hippocampal_shock.max_collision_slots == o.hippocampal_shock.max_collision_slots
            &&& one_trace_changed(traces, n.hippocampal_shock.traces@, i as int)
            &&& reinforced(traces[i as int], n.hippocampal_shock.traces@[i as int], route, success, tick)
        },
        None => if success && events.len() > 0 {
            exists|h: HippocampalShockMemory| {
                &&& ingested(o.hippocampal_shock, h, events.last(), previous_event(events))
                &&& n.hippocampal_shock.max_traces == h.max_traces
                &&& n.hippocampal_shock.max_collision_slots == h.max_collision_slots
                &&& if h.traces@.len() > 0 {
                    &&& one_trace_changed(h.traces@, n.hippocampal_shock.traces@, h.traces@.len() - 1)
                    &&& credited(h.traces@.last(), n.hippocampal_shock.traces@.last(), route, tick)
                } else {
                    n.hippocampal_shock.traces@ == h.traces@
                }
            }
        } else {
            n.hippocampal_shock == o.hippocampal_shock
        },
    }
}

fn find_newest_match(traces: &Vec<SparseEpisodeTrace>, source: Option<SourceKind>, ctx: Option<ContextHash>, tick: u64) -> (r: Option<usize>)
    ensures
        match r {
            Some(i) => i < traces@.len() && newest_match(traces@, source, ctx, tick, traces@.len()) == Some(i as nat),
            None => newest_match(traces@, source, ctx, tick, traces@.len()) is None,
        },
{
    let mut i = traces.len();
    while i > 0
        invariant
            i <= traces@.len(),
            newest_match(traces@, source, ctx, tick, traces@.len()) == newest_match(traces@, source, ctx, tick, i as nat),
        decreases i,
    {
        let t = &traces[i - 1];
        let source_ok = match source {
            Some(k) => k == t.source_kind,
            None => true,
        };
        let ctx_ok = match ctx {
            Some(h) => h.0 == t.lookup_key.context_hash.0,
            None => true,
        };
        if source_ok && ctx_ok && t.recency_tick <= tick {
            return Some(i - 1);
        }
        i = i - 1;
    }
    None
}

impl EpisodeMemory {
    /// Records how a route did; see `outcome_recorded`.
    pub fn record_route_outcome(
        &mut self,
        route_family: ControllerRouteFamily,
        source_kind: Option<SourceKind>,
        context_hash: Option<ContextHash>,
        tick: u64,
        success: bool,
    )
        requires
            old(self).wf(),
        ensures
            final(self).wf(),
            outcome_recorded(*old(self), *final(self), route_family, source_kind, context_hash, tick, success),
    {
        let ghost traces0 = self.hippocampal_shock.traces@;
        let ghost o = *self;
        match find_newest_match(&self.hippocampal_shock.traces, source_kind, context_hash, tick) {
            Some(i) => {
                let mut t = self.hippocampal_shock.traces.remove(i);
                assert(t == traces0[i as int]);
                let ghost t0 = t;
                let first_win = t.route_wins.record(route_family, success);
                if tick > t.recency_tick {
                    t.recency_tick = tick;
                }
                let bonus: u32 = if first_win && success {
                    24
                } else if success {
                    8
                } else {
                    2
                };
                t.salience = t.salience.saturating_add(bonus);
                if success {
                    t.support_count = t.support_count.saturating_add(1);
                }
                proof {
                    assert(reinforced(t0, t, route_family, success, tick));
                }
                self.hippocampal_shock.traces.insert(i, t);
                proof {
                    assert forall|k: int| 0 <= k < self.hippocampal_shock.traces@.len() implies (#[trigger] self.hippocampal_shock.traces@[k]).route_wins.wf() by {
                        if k != i {
                            assert(self.hippocampal_shock.traces@[k] == traces0[k]);
                        }
                    }
                }
            },
            None => {
                let n = self.working_trace.events.len();
                if success && n > 0 {
                    let last = &self.working_trace.events[n - 1];
                    let prev: Option<&EpisodeActivationEvent> = if n >= 2 {
                        Some(&self.working_trace.events[n - 2])
                    } else {
                        None
                    };
                    assert(*last == o.working_trace.events@.last());
                    assert(opt_event(prev) == previous_event(o.working_trace.events@));
                    self.hippocampal_shock.ingest(last, prev);
                    let ghost h = self.hippocampal_shock;
                    assert(ingested(o.hippocampal_shock, h, o.working_trace.events@.last(), previous_event(o.working_trace.events@)));
                    let len = self.hippocampal_shock.traces.len();
                    if len > 0 {
                        let mut t = self.hippocampal_shock.traces.remove(len - 1);
                        assert(t == h.traces@[len - 1]);
                        proof {
                            assert(h.traces@[len - 1].route_wins.wf());
                        }
                        let _ = t.route_wins.record(route_family, true);
                        t.salience = t.salience.saturating_add(24);
                        t.support_count = t.support_count.saturating_add(1);
                        t.recency_tick = tick;
                        self.hippocampal_shock.traces.push(t);
                        proof {
                            assert forall|k: int| 0 <= k < self.hippocampal_shock.traces@.len() implies (#[trigger] self.hippocampal_shock.traces@[k]).route_wins.wf() by {
                                if k != len - 1 {
                                    assert(self.hippocampal_shock.traces@[k] == h.traces@[k]);
                                }
                            }
                            assert(one_trace_changed(h.traces@, self.hippocampal_shock.traces@, len - 1));
                        }
                    }
                    proof {
                        let nh = self.hippocampal_shock;
                        assert(nh.max_traces == h.max_traces);
                        assert(if h.traces@.len() > 0 {
                            &&& one_trace_changed(h.traces@, nh.traces@, h.traces@.len() - 1)
                            &&& credited(h.traces@.last(), nh.traces@.last(), route_family, tick)
                        } else {
                            nh.traces@ == h.traces@
                        });
                    }
                }
            },
        }
    }
}

impl EpisodeMemory {
    /// Keeps the last `keep_last` activations of the working trace.
    pub fn decay_working_trace(&mut self, keep_last: usize)
        requires
            old(self).wf(),
        ensures
            final(self).wf(),
            final(self).working_trace.events@ == self::keep_last(old(self).working_trace.events@, keep_last as nat),
            final(self).working_trace.max_events == old(self).working_trace.max_events,
            final(self).short_episode == old(self).short_episode,
            final(self).clustered_episode == old(self).clustered_episode,
            final(self).hippocampal_shock == old(self).hippocampal_shock,
            final(self).context_model == old(self).context_model,
    {
        keep_last_vec(&mut self.working_trace.events, keep_last);
    }

    /// Keeps the last `keep_last` nodes and edges, and when there are more
    /// traces, the `keep_last` first by salience then recency.
    pub fn decay_short_episode(&mut self, keep_last: usize)
        requires
            old(self).wf(),
        ensures
            final(self).wf(),
            final(self).short_episode.nodes@ == self::keep_last(old(self).short_episode.nodes@, keep_last as nat),
            final(self).short_episode.edges@ == self::keep_last(old(self).short_episode.edges@, keep_last as nat),
            final(self).short_episode.max_nodes == old(self).short_episode.max_nodes,
            final(self).hippocampal_shock.traces@ == if old(self).hippocampal_shock.traces@.len() > keep_last {
                crate::catalog::first_n(traces_ranked(old(self).hippocampal_shock.traces@, false), keep_last as nat)
            } else {
                old(self).hippocampal_shock.traces@
            },
            final(self).hippocampal_shock.max_traces == old(self).hippocampal_shock.max_traces,
            final(self).hippocampal_shock.max_collision_slots == old(self).hippocampal_shock.max_collision_slots,
            final(self).working_trace == old(self).working_trace,
            final(self).clustered_episode == old(self).clustered_episode,
            final(self).context_model == old(self).context_model,
    {
        keep_last_vec(&mut self.short_episode.nodes, keep_last);
        keep_last_vec(&mut self.short_episode.edges, keep_last);
        if self.hippocampal_shock.traces.len() > keep_last {
            let ghost before = self.hippocampal_shock.traces@;
            rank_and_trim(&mut self.hippocampal_shock.traces, false, keep_last);
            proof {
                crate::episode::lemma_traces_ranked_wf(before, false);
                crate::episode::lemma_first_n_wf(traces_ranked(before, false), keep_last as nat);
            }
        }
    }

    /// Drops the smallest contexts until at most `keep_contexts` remain.
    pub fn decay_clustered_episode(&mut self, keep_contexts: usize)
        requires
            old(self).wf(),
        ensures
            final(self).wf(),
            final(self).clustered_episode.clusters@ == keep_last(old(self).clustered_episode.clusters@, keep_contexts as nat),
            final(self).clustered_episode.max_contexts == old(self).clustered_episode.max_contexts,
            final(self).working_trace == old(self).working_trace,
            final(self).short_episode == old(self).short_episode,
            final(self).hippocampal_shock == old(self).hippocampal_shock,
            final(self).context_model == old(self).context_model,
    {
        let ghost start = self.clustered_episode.clusters@;
        while self.clustered_episode.clusters.len() > keep_contexts
            invariant
                self.clustered_episode.clusters.wf(),
                traces_all_wf(self.hippocampal_shock.traces@),
                self.clustered_episode.clusters@.len() >= keep_contexts ==> keep_last(start, keep_contexts as nat) == keep_last(self.clustered_episode.clusters@, keep_contexts as nat),
                start.len() <= keep_contexts ==> self.clustered_episode.clusters@ == start,
                start.len() > keep_contexts ==> self.clustered_episode.clusters@.len() >= keep_contexts,
                self.clustered_episode.max_contexts == old(self).clustered_episode.max_contexts,
                self.working_trace == old(self).working_trace,
                self.short_episode == old(self).short_episode,
                self.hippocampal_shock == old(self).hippocampal_shock,
                self.context_model == old(self).context_model,
                start == old(self).clustered_episode.clusters@,
            decreases self.clustered_episode.clusters@.len(),
        {
            let ghost before = self.clustered_episode.clusters@;
            let _ = self.clustered_episode.clusters.remove_first();
            assert(keep_last(before, keep_contexts as nat) =~= keep_last(before.drop_first(), keep_contexts as nat));
        }
    }
}

// ---------------------------------------------------------------------------
// The replay queue
// ---------------------------------------------------------------------------

#[derive(Debug, Clone, PartialEq, Eq, Default)]
pub struct EpisodeReplayQueueEntry {
    pub event: EpisodeActivationEvent,
    pub surprise: u32,
    pub reuse_potential: u32,
    pub ambiguity: u32,
}

#[derive(Debug, Clone, PartialEq, Eq, Default)]
pub struct EpisodeReplayQueue {
    pub pending: Vec<EpisodeReplayQueueEntry>,
}

/// `a` is replayed strictly before `b`: more surprise, then more reuse
/// potential, then less ambiguity.
pub open spec fn replay_before(a: EpisodeReplayQueueEntry, b: EpisodeReplayQueueEntry) -> bool {
    if a.surprise != b.surprise {
        a.surprise > b.surprise
    } else if a.reuse_potential != b.reuse_potential {
        a.reuse_potential > b.reuse_potential
    } else {
        a.ambiguity < b.ambiguity
    }
}

pub open spec fn replay_insert_pos(s: Seq<EpisodeReplayQueueEntry>, x: EpisodeReplayQueueEntry) -> nat
    decreases s.len(),
{
    if s.len() == 0 {
        0
    } else if replay_before(x, s[0]) {
        0
    } else {
        1 + replay_insert_pos(s.drop_first(), x)
    }
}

/// The entries in replay order, equal ones in their original order.
pub open spec fn replay_ordered(s: Seq<EpisodeReplayQueueEntry>) -> Seq<EpisodeReplayQueueEntry>
    decreases s.len(),
{
    if s.len() == 0 {
        s
    } else {
        let t = replay_ordered(s.drop_last());
        t.insert(replay_insert_pos(t, s.last()) as int, s.last())
    }
}

proof fn lemma_replay_insert_pos_bound(s: Seq<EpisodeReplayQueueEntry>, x: EpisodeReplayQueueEntry)
    ensures
        replay_insert_pos(s, x) <= s.len(),
    decreases s.len(),
{
    if s.len() > 0 {
        lemma_replay_insert_pos_bound(s.drop_first(), x);
    }
}

proof fn lemma_replay_ordered_len(s: Seq<EpisodeReplayQueueEntry>)
    ensures
        replay_ordered(s).len() == s.len(),
    decreases s.len(),
{
    if s.len() > 0 {
        lemma_replay_ordered_len(s.drop_last());
        lemma_replay_insert_pos_bound(replay_ordered(s.drop_last()), s.last());
    }
}

fn replay_find_pos(v: &Vec<EpisodeReplayQueueEntry>, x: &EpisodeReplayQueueEntry) -> (p: usize)
    ensures
        p == replay_insert_pos(v@, *x),
{
    let mut i: usize = 0;
    assert(v@.subrange(0, v@.len() as int) =~= v@);
    while i < v.len()
        invariant
            i <= v@.len(),
            replay_insert_pos(v@, *x) == i + replay_insert_pos(v@.subrange(i as int, v@.len() as int), *x),
        decreases v@.len() - i,
    {
        let e = &v[i];
        proof {
            let rest = v@.subrange(i as int, v@.len() as int);
            assert(rest[0] == *e);
            assert(rest.drop_first() =~= v@.subrange(i + 1, v@.len() as int));
        }
        let before = if x.surprise != e.surprise {
            x.surprise > e.surprise
        } else if x.reuse_potential != e.reuse_potential {
            x.reuse_potential > e.reuse_potential
        } else {
            x.ambiguity < e.ambiguity
        };
        if before {
            return i;
        }
        i = i + 1;
    }
    proof {
        assert(v@.subrange(i as int, v@.len() as int).len() == 0);
    }
    i
}

impl EpisodeReplayQueue {
    /// Adds an entry and puts the queue in replay order.
    pub fn push(&mut self, entry: EpisodeReplayQueueEntry)
        ensures
            final(self).pending@ == replay_ordered(old(self).pending@.push(entry)),
    {
        self.pending.push(entry);
        let ghost full = self.pending@;
        let mut rest: Vec<EpisodeReplayQueueEntry> = Vec::new();
        std::mem::swap(&mut rest, &mut self.pending);
        let mut sorted: Vec<EpisodeReplayQueueEntry> = Vec::new();
        let ghost mut seen: Seq<EpisodeReplayQueueEntry> = Seq::empty();
        while rest.len() > 0
            invariant
                sorted@ == replay_ordered(seen),
                seen + rest@ == full,
            decreases rest@.len(),
        {
            let x = rest.remove(0);
            proof {
                lemma_replay_ordered_len(seen);
                lemma_replay_insert_pos_bound(sorted@, x);
            }
            let p = replay_find_pos(&sorted, &x);
            let ghost xg = x;
            sorted.insert(p, x);
            proof {
                assert(seen.push(xg).drop_last() =~= seen);
                let s0 = seen;
                seen = seen.push(xg);
                assert(seen + rest@ =~= s0 + (seq![xg] + rest@));
            }
        }
        assert(seen =~= full);
        self.pending = sorted;
    }
}

} // verus!
