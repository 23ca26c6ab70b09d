//! Transforms: parameterised rewrites over basis objects, their support
//! bookkeeping, promotion rules and promotion queue; and the token
//! dictionary shared between endpoints.

use vstd::prelude::*;
use crate::assembly::AssemblyId;
use crate::chpmt::{
    DictionaryId, ObjectKind, ObjectLifecycleMeta, ObjectVersion, PromotionLevel, SparseCue,
    TransformKind, TransformTransducerFamily,
};
use crate::episode::SchemaId;
use crate::num::{sat_add_u32, sat_mul_u32, sat_sub_u32};
use crate::source::SourceKind;

verus! {

#[derive(Debug, Clone, Copy, PartialEq, Eq, PartialOrd, Ord, Hash, Default, Structural)]
pub struct TransformId(pub u64);

#[derive(Debug, Clone, PartialEq, Eq, Default)]
pub struct DictionaryEntry {
    pub token_id: u16,
    pub material: Vec<u8>,
    pub support_count: u32,
}

#[derive(Debug, Clone, PartialEq, Eq, Default)]
pub struct SharedDictionary {
    pub dictionary_id: DictionaryId,
    pub source_kind: SourceKind,
    pub version: ObjectVersion,
    pub entries: Vec<DictionaryEntry>,
    pub keyed_permutation_seed: u64,
    pub max_token_len: u16,
    pub lifecycle: ObjectLifecycleMeta,
}

/// The first entry with this token id.
pub open spec fn token_entry(entries: Seq<DictionaryEntry>, token_id: u16) -> Option<DictionaryEntry>
    decreases entries.len(),
{
    if entries.len() == 0 {
        None
    } else if entries[0].token_id == token_id {
        Some(entries[0])
    } else {
        token_entry(entries.drop_first(), token_id)
    }
}

/// The material of the tokens, one after another; `None` if one is unknown.
pub open spec fn decoded_tokens(entries: Seq<DictionaryEntry>, tokens: Seq<u16>) -> Option<Seq<u8>>
    decreases tokens.len(),
{
    if tokens.len() == 0 {
        Some(Seq::empty())
    } else {
        match decoded_tokens(entries, tokens.drop_last()) {
            None => None,
            Some(prefix) => match token_entry(entries, tokens.last()) {
                None => None,
                Some(e) => Some(prefix + e.material@),
            },
        }
    }
}

impl SharedDictionary {
    fn find_entry(&self, token_id: u16) -> (r: Option<&DictionaryEntry>)
        ensures
            match r {
                Some(e) => token_entry(self.entries@, token_id) == Some(*e),
                None => token_entry(self.entries@, token_id) is None,
            },
    {
        let mut i: usize = 0;
        assert(self.entries@.subrange(0, self.entries@.len() as int) =~= self.entries@);
        while i < self.entries.len()
            invariant
                i <= self.entries@.len(),
                token_entry(self.entries@, token_id) == token_entry(
                    self.entries@.subrange(i as int, self.entries@.len() as int),
                    token_id,
                ),
            decreases self.entries@.len() - i,
        {
            proof {
                let rest = self.entries@.subrange(i as int, self.entries@.len() as int);
                assert(rest[0] == self.entries@[i as int]);
                assert(rest.drop_first() =~= self.entries@.subrange(i + 1, self.entries@.len() as int));
            }
            if self.entries[i].token_id == token_id {
                return Some(&self.entries[i]);
            }
            i = i + 1;
        }
        None
    }

    /// The material of the tokens in order, or `None` if a token is unknown.
    pub fn decode_tokens(&self, token_ids: &[u16]) -> (r: Option<Vec<u8>>)
        ensures
            match r {
                Some(v) => decoded_tokens(self.entries@, token_ids@) == Some(v@),
                None => decoded_tokens(self.entries@, token_ids@) is None,
            },
    {
        let mut out: Vec<u8> = Vec::new();
        let mut i: usize = 0;
        while i < token_ids.len()
            invariant
                i <= token_ids@.len(),
                decoded_tokens(self.entries@, token_ids@.take(i as int)) == Some(out@),
            decreases token_ids@.len() - i,
        {
            proof {
                assert(token_ids@.take(i + 1).drop_last() =~= token_ids@.take(i as int));
            }
            match self.find_entry(token_ids[i]) {
                Some(entry) => {
                    crate::wire::append_bytes(&mut out, entry.material.as_slice());
                },
                None => {
                    proof {
                        lemma_decoded_none_extends(self.entries@, token_ids@, i as int + 1);
                    }
                    return None;
                },
            }
            i = i + 1;
        }
        assert(token_ids@.take(i as int) =~= token_ids@);
        Some(out)
    }
}

proof fn lemma_decoded_none_extends(entries: Seq<DictionaryEntry>, tokens: Seq<u16>, k: int)
    requires
        0 <= k <= tokens.len(),
        decoded_tokens(entries, tokens.take(k)) is None,
    ensures
        decoded_tokens(entries, tokens) is None,
    decreases tokens.len() - k,
{
    if k < tokens.len() {
        assert(tokens.take(k + 1).drop_last() =~= tokens.take(k));
        lemma_decoded_none_extends(entries, tokens, k + 1);
    } else {
        assert(tokens.take(k) =~= tokens);
    }
}

#[derive(Debug, Clone, PartialEq, Eq, Default)]
pub struct TransformParameterField {
    pub name: String,
    pub min_value: i32,
    pub max_value: i32,
    pub required: bool,
}

#[derive(Debug, Clone, PartialEq, Eq, Default)]
pub struct TransformParameterSchema {
    pub parameters: Vec<TransformParameterField>,
    pub max_basis_count: u8,
    pub residual_allowed: bool,
}

/// Which layers of objects a transform may take as its basis.
#[derive(Debug, Clone, Copy, PartialEq, Eq, Default, Structural)]
pub struct TransformBasisMask {
    pub allow_substrate: bool,
    pub allow_assembly: bool,
    pub allow_transform: bool,
}

/// Whether the mask admits objects of the kind as a basis.
pub open spec fn basis_admits(mask: TransformBasisMask, kind: ObjectKind) -> bool {
    match kind {
        ObjectKind::Assembly => mask.allow_assembly,
        ObjectKind::Transform => mask.allow_transform,
        ObjectKind::Schema | ObjectKind::EpisodeHint | ObjectKind::ReplayHint => false,
        _ => mask.allow_substrate,
    }
}

impl TransformBasisMask {
    pub fn substrate_only() -> (m: Self)
        ensures
            m == (TransformBasisMask { allow_substrate: true, allow_assembly: false, allow_transform: false }),
    {
        TransformBasisMask { allow_substrate: true, allow_assembly: false, allow_transform: false }
    }

    pub fn admits(self, object_kind: ObjectKind) -> (b: bool)
        ensures
            b == basis_admits(self, object_kind),
    {
        match object_kind {
            ObjectKind::Assembly => self.allow_assembly,
            ObjectKind::Transform => self.allow_transform,
            ObjectKind::Schema | ObjectKind::EpisodeHint | ObjectKind::ReplayHint => false,
            _ => self.allow_substrate,
        }
    }
}

#[derive(Debug, Clone, Copy, PartialEq, Eq, Default, Structural)]
pub struct TransformOutputContract {
    pub min_output_len: u32,
    pub max_output_len: u32,
    pub preserves_delimiters: bool,
    pub deterministic: bool,
}

#[derive(Debug, Clone, PartialEq, Eq, Default)]
pub struct TransformBasisRef {
    pub object_kind: ObjectKind,
    pub object_id: String,
    pub start: u32,
    pub len: u32,
}

#[derive(Debug, Clone, PartialEq, Eq, Default)]
pub struct TransformDependencyClosure {
    pub substrate_object_ids: Vec<String>,
    pub assembly_ids: Vec<AssemblyId>,
    pub transform_ids: Vec<TransformId>,
    pub schema_ids: Vec<SchemaId>,
    pub max_decode_depth: u8,
}

#[derive(Debug, Clone, Copy, PartialEq, Eq, Default, Structural)]
pub struct TransformRoutePrior {
    pub planner_gain: u32,
    pub route_win_count: u32,
    pub route_loss_count: u32,
    pub last_route_win_tick: u64,
}

#[derive(Debug, Clone, Copy, PartialEq, Eq, Default, Structural)]
pub struct TransformSupportMetrics {
    pub mean_residual_bytes: u32,
    pub mean_decode_steps: u32,
    pub last_residual_bytes: u32,
    pub last_decode_steps: u32,
}

#[derive(Debug, Clone, PartialEq, Eq, Default)]
pub struct TransformClass {
    pub transform_id: TransformId,
    pub source_kind: SourceKind,
    pub transform_kind: TransformKind,
    pub transducer_family: TransformTransducerFamily,
    pub parameter_schema: TransformParameterSchema,
    pub basis_mask: TransformBasisMask,
    pub output_contract: TransformOutputContract,
    pub invertible: bool,
    pub dependency_closure: TransformDependencyClosure,
    pub support_metrics: TransformSupportMetrics,
    pub route_prior: TransformRoutePrior,
    pub lifecycle: ObjectLifecycleMeta,
    pub mean_residual_bytes: u32,
    pub mean_decode_steps: u32,
    pub reuse_savings: u32,
    pub stability_score: u32,
    pub failure_score: u32,
    pub cue: SparseCue,
}

#[derive(Debug, Clone, PartialEq, Eq, Default)]
pub struct TransformInstance {
    pub class_id: TransformId,
    pub basis_refs: Vec<TransformBasisRef>,
    pub integer_parameters: Vec<i32>,
    pub residual_offsets: Vec<u32>,
    pub residual_bytes: Vec<Vec<u8>>,
    pub dependency_closure: TransformDependencyClosure,
    pub output_contract: TransformOutputContract,
    pub invertibility_expected: bool,
    pub output_len: u32,
}

#[derive(Debug, Clone, PartialEq, Eq, Default)]
pub struct TransformCandidate {
    pub class: TransformClass,
    pub instance: TransformInstance,
    pub estimated_wire_bytes: u32,
}

/// Whether a class has enough support, stability and savings and few enough failures.
pub open spec fn should_promote_spec(
    class: TransformClass,
    min_support: u32,
    min_stability_score: u32,
    min_reuse_savings: u32,
    max_failure_score: u32,
) -> bool {
    &&& class.lifecycle.support_count >= min_support
    &&& class.stability_score >= min_stability_score
    &&& class.reuse_savings >= min_reuse_savings
    &&& class.failure_score <= max_failure_score
}

pub fn transform_should_promote(
    class: &TransformClass,
    min_support: u32,
    min_stability_score: u32,
    min_reuse_savings: u32,
    max_failure_score: u32,
) -> (b: bool)
    ensures
        b == should_promote_spec(*class, min_support, min_stability_score, min_reuse_savings, max_failure_score),
{
    class.lifecycle.support_count >= min_support && class.stability_score >= min_stability_score
        && class.reuse_savings >= min_reuse_savings && class.failure_score <= max_failure_score
}

/// One level down, to no lower than cold.
pub open spec fn demoted(level: PromotionLevel) -> PromotionLevel {
    match level {
        PromotionLevel::Canonical => PromotionLevel::Promoted,
        PromotionLevel::Promoted => PromotionLevel::Stable,
        PromotionLevel::Stable => PromotionLevel::Warm,
        _ => PromotionLevel::Cold,
    }
}

/// One level up, to no higher than promoted; canonical stays canonical.
pub open spec fn promoted(level: PromotionLevel) -> PromotionLevel {
    match level {
        PromotionLevel::Cold => PromotionLevel::Warm,
        PromotionLevel::Warm => PromotionLevel::Stable,
        PromotionLevel::Stable => PromotionLevel::Promoted,
        _ => level,
    }
}

/// A failed application: counts the failure and demotes the class one level.
pub fn transform_apply_failure_demotes(class: &mut TransformClass, tick: u64)
    ensures
        final(class).lifecycle == (ObjectLifecycleMeta {
            promotion_level: demoted(old(class).lifecycle.promotion_level),
            ..old(class).lifecycle.seen(tick, false)
        }),
        final(class).failure_score == sat_add_u32(old(class).failure_score, 1),
        final(class).stability_score == sat_sub_u32(old(class).stability_score, 1),
        final(class).route_prior == (TransformRoutePrior {
            route_loss_count: sat_add_u32(old(class).route_prior.route_loss_count, 1),
            planner_gain: sat_sub_u32(old(class).route_prior.planner_gain, 1),
            ..old(class).route_prior
        }),
        final(class).transform_id == old(class).transform_id,
        final(class).reuse_savings == old(class).reuse_savings,
        final(class).mean_residual_bytes == old(class).mean_residual_bytes,
        final(class).mean_decode_steps == old(class).mean_decode_steps,
        final(class).support_metrics == old(class).support_metrics,
        final(class).basis_mask == old(class).basis_mask,
        final(class).output_contract == old(class).output_contract,
        final(class).cue == old(class).cue,
{
    class.lifecycle = class.lifecycle.record_seen(tick, false);
    class.failure_score = class.failure_score.saturating_add(1);
    class.stability_score = class.stability_score.saturating_sub(1);
    class.route_prior.route_loss_count = class.route_prior.route_loss_count.saturating_add(1);
    class.route_prior.planner_gain = class.route_prior.planner_gain.saturating_sub(1);
    class.lifecycle.promotion_level = match class.lifecycle.promotion_level {
        PromotionLevel::Canonical => PromotionLevel::Promoted,
        PromotionLevel::Promoted => PromotionLevel::Stable,
        PromotionLevel::Stable => PromotionLevel::Warm,
        _ => PromotionLevel::Cold,
    };
}

/// The running mean after one more observation, in saturating `u32`
/// arithmetic; the observation itself for the first sample.
pub open spec fn running_mean(current: u32, samples: u32, observation: u32) -> u32 {
    if samples <= 1 {
        observation
    } else {
        (sat_add_u32(sat_mul_u32(current, (samples - 1) as u32), observation) / samples) as u32
    }
}

fn running_mean_u32(current: u32, samples: u32, observation: u32) -> (r: u32)
    ensures
        r == running_mean(current, samples, observation),
{
    if samples <= 1 {
        return observation;
    }
    let retained = crate::num::saturating_mul_u32(current, samples - 1);
    retained.saturating_add(observation) / samples
}

/// The planner gain that one more success adds.
pub open spec fn gain_delta(stability_score: u32, mean_residual_bytes: u32, last_residual_bytes: u32) -> u32 {
    let stability: u32 = if stability_score < 8 { stability_score } else { 8 };
    let diff = sat_sub_u32(mean_residual_bytes, last_residual_bytes);
    let bonus: u32 = if diff < 8 { diff } else { 8 };
    (1 + stability / 2 + bonus / 4) as u32
}

fn route_prior_gain_delta(class: &TransformClass) -> (d: u32)
    ensures
        d == gain_delta(class.stability_score, class.mean_residual_bytes, class.support_metrics.last_residual_bytes),
{
    let stability: u32 = if class.stability_score < 8 { class.stability_score } else { 8 };
    let diff = class.mean_residual_bytes.saturating_sub(class.support_metrics.last_residual_bytes);
    let bonus: u32 = if diff < 8 { diff } else { 8 };
    1 + stability / 2 + bonus / 4
}

/// A successful application: counts it, folds the observation into the
/// running means, credits the route and promotes the class one level when
/// it has earned it.
pub fn transform_apply_success(
    class: &mut TransformClass,
    tick: u64,
    reuse_savings: u32,
    residual_bytes: u32,
    decode_steps: u32,
)
    ensures
        ({
            let o = *old(class);
            let life = o.lifecycle.seen(tick, true);
            let mean_res = running_mean(o.mean_residual_bytes, life.success_count, residual_bytes);
            let mean_dec = running_mean(o.mean_decode_steps, life.success_count, decode_steps);
            let savings = sat_add_u32(o.reuse_savings, reuse_savings);
            let stability = sat_add_u32(o.stability_score, 1);
            let c = *final(class);
            &&& c.reuse_savings == savings
            &&& c.stability_score == stability
            &&& c.mean_residual_bytes == mean_res
            &&& c.mean_decode_steps == mean_dec
            &&& c.support_metrics == (TransformSupportMetrics {
                mean_residual_bytes: mean_res,
                mean_decode_steps: mean_dec,
                last_residual_bytes: residual_bytes,
                last_decode_steps: decode_steps,
            })
            &&& c.route_prior == (TransformRoutePrior {
                route_win_count: sat_add_u32(o.route_prior.route_win_count, 1),
                last_route_win_tick: tick,
                planner_gain: sat_add_u32(
                    o.route_prior.planner_gain,
                    gain_delta(stability, mean_res, residual_bytes),
                ),
                ..o.route_prior
            })
            &&& c.lifecycle == (ObjectLifecycleMeta {
                promotion_level: if life.support_count >= 3 && stability >= 2 && savings >= 1
                    && o.failure_score <= 4 {
                    promoted(life.promotion_level)
                } else {
                    life.promotion_level
                },
                ..life
            })
            &&& c.failure_score == o.failure_score
            &&& c.transform_id == o.transform_id
            &&& c.cue == o.cue
        }),
{
    class.lifecycle = class.lifecycle.record_seen(tick, true);
    class.reuse_savings = class.reuse_savings.saturating_add(reuse_savings);
    class.stability_score = class.stability_score.saturating_add(1);
    class.mean_residual_bytes = running_mean_u32(
        class.mean_residual_bytes,
        class.lifecycle.success_count,
        residual_bytes,
    );
    class.mean_decode_steps = running_mean_u32(
        class.mean_decode_steps,
        class.lifecycle.success_count,
        decode_steps,
    );
    class.support_metrics.mean_residual_bytes = class.mean_residual_bytes;
    class.support_metrics.mean_decode_steps = class.mean_decode_steps;
    class.support_metrics.last_residual_bytes = residual_bytes;
    class.support_metrics.last_decode_steps = decode_steps;
    class.route_prior.route_win_count = class.route_prior.route_win_count.saturating_add(1);
    class.route_prior.last_route_win_tick = tick;
    let delta = route_prior_gain_delta(class);
    class.route_prior.planner_gain = class.route_prior.planner_gain.saturating_add(delta);
    if transform_should_promote(class, 3, 2, 1, 4) {
        class.lifecycle.promotion_level = match class.lifecycle.promotion_level {
            PromotionLevel::Cold => PromotionLevel::Warm,
            PromotionLevel::Warm => PromotionLevel::Stable,
            PromotionLevel::Stable => PromotionLevel::Promoted,
            PromotionLevel::Promoted => PromotionLevel::Promoted,
            PromotionLevel::Canonical => PromotionLevel::Canonical,
        };
    }
}

#[derive(Debug, Clone, Copy, PartialEq, Eq, Default)]
pub struct TransformPromotionQueueEntry {
    pub transform_id: TransformId,
    pub source_kind: SourceKind,
    pub estimated_wire_savings: u32,
    pub stability_score: u32,
    pub failure_score: u32,
    pub lifecycle: ObjectLifecycleMeta,
    pub cue: SparseCue,
}

/// `a` comes strictly before `b`: more savings, then more stability, then
/// fewer failures, then the smaller id.
pub open spec fn transform_entry_before(a: TransformPromotionQueueEntry, b: TransformPromotionQueueEntry) -> bool {
    ||| a.estimated_wire_savings > b.estimated_wire_savings
    ||| a.estimated_wire_savings == b.estimated_wire_savings && a.stability_score > b.stability_score
    ||| a.estimated_wire_savings == b.estimated_wire_savings && a.stability_score == b.stability_score
        && a.failure_score < b.failure_score
    ||| a.estimated_wire_savings == b.estimated_wire_savings && a.stability_score == b.stability_score
        && a.failure_score == b.failure_score && a.transform_id.0 < b.transform_id.0
}

pub open spec fn transform_insert_pos(s: Seq<TransformPromotionQueueEntry>, x: TransformPromotionQueueEntry) -> nat
    decreases s.len(),
{
    if s.len() == 0 {
        0
    } else if transform_entry_before(x, s[0]) {
        0
    } else {
        1 + transform_insert_pos(s.drop_first(), x)
    }
}

/// The entries in queue order, equal entries in their original order.
pub open spec fn transform_sorted(s: Seq<TransformPromotionQueueEntry>) -> Seq<TransformPromotionQueueEntry>
    decreases s.len(),
{
    if s.len() == 0 {
        s
    } else {
        let t = transform_sorted(s.drop_last());
        t.insert(transform_insert_pos(t, s.last()) as int, s.last())
    }
}

/// Whether an entry is ready for promotion.
pub open spec fn transform_entry_ready(e: TransformPromotionQueueEntry, min_support: u32, min_stability_score: u32, max_failure_score: u32) -> bool {
    e.lifecycle.support_count >= min_support && e.stability_score >= min_stability_score
        && e.failure_score <= max_failure_score
}

/// The entries whose readiness is `ready`, in order.
pub open spec fn transform_ready(
    s: Seq<TransformPromotionQueueEntry>,
    min_support: u32,
    min_stability_score: u32,
    max_failure_score: u32,
    ready: bool,
) -> Seq<TransformPromotionQueueEntry>
    decreases s.len(),
{
    if s.len() == 0 {
        s
    } else {
        let rest = transform_ready(s.drop_last(), min_support, min_stability_score, max_failure_score, ready);
        if transform_entry_ready(s.last(), min_support, min_stability_score, max_failure_score) == ready {
            rest.push(s.last())
        } else {
            rest
        }
    }
}

proof fn lemma_transform_insert_pos_bound(s: Seq<TransformPromotionQueueEntry>, x: TransformPromotionQueueEntry)
    ensures
        transform_insert_pos(s, x) <= s.len(),
    decreases s.len(),
{
    if s.len() > 0 {
        lemma_transform_insert_pos_bound(s.drop_first(), x);
    }
}

proof fn lemma_transform_sorted_len(s: Seq<TransformPromotionQueueEntry>)
    ensures
        transform_sorted(s).len() == s.len(),
    decreases s.len(),
{
    if s.len() > 0 {
        lemma_transform_sorted_len(s.drop_last());
        lemma_transform_insert_pos_bound(transform_sorted(s.drop_last()), s.last());
    }
}

fn transform_find_pos(v: &Vec<TransformPromotionQueueEntry>, x: TransformPromotionQueueEntry) -> (p: usize)
    ensures
        p == transform_insert_pos(v@, x),
{
    let mut i: usize = 0;
    assert(v@.subrange(0, v@.len() as int) =~= v@);
    while i < v.len()
        invariant
            i <= v@.len(),
            transform_insert_pos(v@, x) == i + transform_insert_pos(v@.subrange(i as int, v@.len() as int), x),
        decreases v@.len() - i,
    {
        let e = v[i];
        proof {
            let rest = v@.subrange(i as int, v@.len() as int);
            assert(rest[0] == e);
            assert(rest.drop_first() =~= v@.subrange(i + 1, v@.len() as int));
        }
        let before: bool = x.estimated_wire_savings > e.estimated_wire_savings || (
        x.estimated_wire_savings == e.estimated_wire_savings && (x.stability_score > e.stability_score
            || (x.stability_score == e.stability_score && (x.failure_score < e.failure_score || (
        x.failure_score == e.failure_score && x.transform_id.0 < e.transform_id.0)))));
        if before {
            return i;
        }
        i = i + 1;
    }
    proof {
        assert(v@.subrange(i as int, v@.len() as int).len() == 0);
    }
    i
}

#[derive(Debug, Clone, PartialEq, Eq, Default)]
pub struct TransformPromotionQueue {
    pub pending: Vec<TransformPromotionQueueEntry>,
}

impl TransformPromotionQueue {
    /// Adds an entry and puts the queue in order (a stable sort).
    pub fn push(&mut self, entry: TransformPromotionQueueEntry)
        ensures
            final(self).pending@ == transform_sorted(old(self).pending@.push(entry)),
    {
        self.pending.push(entry);
        let ghost all = self.pending@;
        let mut out: Vec<TransformPromotionQueueEntry> = Vec::new();
        let mut i: usize = 0;
        while i < self.pending.len()
            invariant
                all == self.pending@,
                i <= all.len(),
                out@ == transform_sorted(all.take(i as int)),
            decreases all.len() - i,
        {
            proof {
                assert(all.take(i + 1).drop_last() =~= all.take(i as int));
                lemma_transform_sorted_len(all.take(i as int));
                lemma_transform_insert_pos_bound(out@, all[i as int]);
            }
            let e = self.pending[i];
            let p = transform_find_pos(&out, e);
            out.insert(p, e);
            i = i + 1;
        }
        assert(all.take(i as int) =~= all);
        self.pending = out;
    }

    /// Takes out the ready entries in queue order; the rest stay, in order.
    pub fn promote_ready(&mut self, min_support: u32, min_stability_score: u32, max_failure_score: u32) -> (promoted: Vec<TransformPromotionQueueEntry>)
        ensures
            promoted@ == transform_ready(old(self).pending@, min_support, min_stability_score, max_failure_score, true),
            final(self).pending@ == transform_ready(old(self).pending@, min_support, min_stability_score, max_failure_score, false),
    {
        let mut promoted: Vec<TransformPromotionQueueEntry> = Vec::new();
        let mut retained: Vec<TransformPromotionQueueEntry> = Vec::new();
        let mut i: usize = 0;
        while i < self.pending.len()
            invariant
                i <= self.pending@.len(),
                promoted@ == transform_ready(self.pending@.take(i as int), min_support, min_stability_score, max_failure_score, true),
                retained@ == transform_ready(self.pending@.take(i as int), min_support, min_stability_score, max_failure_score, false),
            decreases self.pending@.len() - i,
        {
            proof {
                assert(self.pending@.take(i + 1).drop_last() =~= self.pending@.take(i as int));
            }
            let e = self.pending[i];
            if e.lifecycle.support_count >= min_support && e.stability_score >= min_stability_score
                && e.failure_score <= max_failure_score {
                promoted.push(e);
            } else {
                retained.push(e);
            }
            i = i + 1;
        }
        assert(self.pending@.take(i as int) =~= self.pending@);
        self.pending = retained;
        promoted
    }
}

} // verus!
