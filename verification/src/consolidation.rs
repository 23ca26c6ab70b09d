//! Consolidation: the queue of jobs that merge, split, promote or retire
//! objects, and the ontology of dynamic families that such jobs reshape.

use vstd::prelude::*;
use crate::chpmt::{
    DynamicFamilyId, DynamicSubfamilyId, MemoryPlane, ObjectKind, ObjectLifecycleMeta, PromotionLevel,
};
use crate::keyed::U64Map;
use crate::num::sat_add_u32;
use crate::source::SourceKind;

verus! {

#[derive(Debug, Clone, Copy, PartialEq, Eq, Default, Structural)]
pub enum ConsolidationJobKind {
    AssemblyMerge,
    AssemblySplit,
    TransformPromotion,
    EpisodeMacroExtraction,
    SchemaPromotion,
    #[default]
    ObjectRetirement,
}

#[derive(Debug, Clone, PartialEq, Eq, Default)]
pub struct ConsolidationJob {
    pub job_id: u64,
    pub kind: ConsolidationJobKind,
    pub plane: MemoryPlane,
    pub source_kind: Option<SourceKind>,
    pub primary_object_id: String,
    pub related_object_ids: Vec<String>,
    pub lifecycle: ObjectLifecycleMeta,
    pub support: u32,
    pub ambiguity: u32,
    pub savings: u32,
}

#[derive(Debug, Clone, PartialEq, Eq, Default)]
pub struct ConsolidationQueue {
    pub pending: Vec<ConsolidationJob>,
}

/// `a` runs strictly before `b`: more savings, then more support, then
/// less ambiguity, then the smaller id.
pub open spec fn job_before(a: ConsolidationJob, b: ConsolidationJob) -> bool {
    if a.savings != b.savings {
        a.savings > b.savings
    } else if a.support != b.support {
        a.support > b.support
    } else if a.ambiguity != b.ambiguity {
        a.ambiguity < b.ambiguity
    } else {
        a.job_id < b.job_id
    }
}

pub open spec fn job_insert_pos(s: Seq<ConsolidationJob>, x: ConsolidationJob) -> nat
    decreases s.len(),
{
    if s.len() == 0 {
        0
    } else if job_before(x, s[0]) {
        0
    } else {
        1 + job_insert_pos(s.drop_first(), x)
    }
}

/// The jobs in queue order, equal ones in their original order.
pub open spec fn jobs_ordered(s: Seq<ConsolidationJob>) -> Seq<ConsolidationJob>
    decreases s.len(),
{
    if s.len() == 0 {
        s
    } else {
        let t = jobs_ordered(s.drop_last());
        t.insert(job_insert_pos(t, s.last()) as int, s.last())
    }
}

proof fn lemma_job_insert_pos_bound(s: Seq<ConsolidationJob>, x: ConsolidationJob)
    ensures
        job_insert_pos(s, x) <= s.len(),
    decreases s.len(),
{
    if s.len() > 0 {
        lemma_job_insert_pos_bound(s.drop_first(), x);
    }
}

proof fn lemma_jobs_ordered_len(s: Seq<ConsolidationJob>)
    ensures
        jobs_ordered(s).len() == s.len(),
    decreases s.len(),
{
    if s.len() > 0 {
        lemma_jobs_ordered_len(s.drop_last());
        lemma_job_insert_pos_bound(jobs_ordered(s.drop_last()), s.last());
    }
}

fn job_find_pos(v: &Vec<ConsolidationJob>, x: &ConsolidationJob) -> (p: usize)
    ensures
        p == job_insert_pos(v@, *x),
{
    let mut i: usize = 0;
    assert(v@.subrange(0, v@.len() as int) =~= v@);
    while i < v.len()
        invariant
            i <= v@.len(),
            job_insert_pos(v@, *x) == i + job_insert_pos(v@.subrange(i as int, v@.len() as int), *x),
        decreases v@.len() - i,
    {
        let e = &v[i];
        proof {
            let rest = v@.subrange(i as int, v@.len() as int);
            assert(rest[0] == *e);
            assert(rest.drop_first() =~= v@.subrange(i + 1, v@.len() as int));
        }
        let before = if x.savings != e.savings {
            x.savings > e.savings
        } else if x.support != e.support {
            x.support > e.support
        } else if x.ambiguity != e.ambiguity {
            x.ambiguity < e.ambiguity
        } else {
            x.job_id < e.job_id
        };
        if before {
            return i;
        }
        i = i + 1;
    }
    proof {
        assert(v@.subrange(i as int, v@.len() as int).len() == 0);
    }
    i
}

/// A job is ready with enough support and little enough ambiguity.
pub open spec fn job_ready(j: ConsolidationJob, min_support: u32, max_ambiguity: u32) -> bool {
    j.support >= min_support && j.ambiguity <= max_ambiguity
}

impl ConsolidationQueue {
    /// Adds a job and puts the queue in order.
    pub fn push(&mut self, job: ConsolidationJob)
        ensures
            final(self).pending@ == jobs_ordered(old(self).pending@.push(job)),
    {
        self.pending.push(job);
        let ghost full = self.pending@;
        let mut rest: Vec<ConsolidationJob> = Vec::new();
        std::mem::swap(&mut rest, &mut self.pending);
        let mut sorted: Vec<ConsolidationJob> = Vec::new();
        let ghost mut seen: Seq<ConsolidationJob> = Seq::empty();
        while rest.len() > 0
            invariant
                sorted@ == jobs_ordered(seen),
                seen + rest@ == full,
            decreases rest@.len(),
        {
            let x = rest.remove(0);
            proof {
                lemma_jobs_ordered_len(seen);
                lemma_job_insert_pos_bound(sorted@, x);
            }
            let p = job_find_pos(&sorted, &x);
            let ghost xg = x;
            sorted.insert(p, x);
            proof {
                assert(seen.push(xg).drop_last() =~= seen);
                let s0 = seen;
                seen = seen.push(xg);
                assert(seen + rest@ =~= s0 + (seq![xg] + rest@));
            }
        }
        assert(seen =~= full);
        self.pending = sorted;
    }

    /// Takes out the jobs that are ready, in queue order; the rest stay in
    /// order.
    pub fn drain_ready(&mut self, min_support: u32, max_ambiguity: u32) -> (ready: Vec<ConsolidationJob>)
        ensures
            ready@ == old(self).pending@.filter(|j: ConsolidationJob| job_ready(j, min_support, max_ambiguity)),
            final(self).pending@ == old(self).pending@.filter(|j: ConsolidationJob| !job_ready(j, min_support, max_ambiguity)),
    {
        let ghost src = self.pending@;
        let mut rest: Vec<ConsolidationJob> = Vec::new();
        std::mem::swap(&mut rest, &mut self.pending);
        let mut ready: Vec<ConsolidationJob> = Vec::new();
        let mut retained: Vec<ConsolidationJob> = Vec::new();
        let ghost mut done: int = 0;
        while rest.len() > 0
            invariant
                0 <= done <= src.len(),
                rest@ == src.skip(done),
                ready@ == src.take(done).filter(|j: ConsolidationJob| job_ready(j, min_support, max_ambiguity)),
                retained@ == src.take(done).filter(|j: ConsolidationJob| !job_ready(j, min_support, max_ambiguity)),
            decreases rest@.len(),
        {
            let job = rest.remove(0);
            proof {
                assert(src.take(done + 1).drop_last() =~= src.take(done));
                assert(job == src[done]);
                reveal(Seq::filter);
                done = done + 1;
                assert(rest@ =~= src.skip(done));
            }
            if job.support >= min_support && job.ambiguity <= max_ambiguity {
                ready.push(job);
            } else {
                retained.push(job);
            }
        }
        assert(src.take(done) =~= src);
        self.pending = retained;
        ready
    }
}

// ---------------------------------------------------------------------------
// The ontology of dynamic families
// ---------------------------------------------------------------------------

#[derive(Debug, Clone, Copy, PartialEq, Eq, Default, Structural)]
pub enum OntologyOperationKind {
    Merge,
    Split,
    Relabel,
    Promote,
    #[default]
    Retire,
}

#[derive(Debug, Clone, PartialEq, Eq, Default)]
pub struct DynamicFamilyAssignment {
    pub family_id: DynamicFamilyId,
    pub subfamily_id: Option<DynamicSubfamilyId>,
    pub label: String,
    pub source_kind: Option<SourceKind>,
    pub plane: MemoryPlane,
    pub object_kinds: Vec<ObjectKind>,
    pub lifecycle: ObjectLifecycleMeta,
}

#[derive(Debug, Clone, PartialEq, Eq, Default)]
pub struct OntologyOperation {
    pub kind: OntologyOperationKind,
    pub plane: MemoryPlane,
    pub target_family: DynamicFamilyId,
    pub related_families: Vec<DynamicFamilyId>,
    pub relabel_to: Option<String>,
    pub promote_to: Option<PromotionLevel>,
    pub retire: bool,
}

/// The families by id, and the operations applied so far.
#[derive(Debug, Clone, PartialEq, Eq)]
pub struct OntologyState {
    pub families: U64Map<DynamicFamilyAssignment>,
    pub history: Vec<OntologyOperation>,
}

/// A family assignment, as values.
pub struct FamilyView {
    pub family_id: DynamicFamilyId,
    pub subfamily_id: Option<DynamicSubfamilyId>,
    pub label: Seq<char>,
    pub source_kind: Option<SourceKind>,
    pub plane: MemoryPlane,
    pub object_kinds: Seq<ObjectKind>,
    pub lifecycle: ObjectLifecycleMeta,
}

pub open spec fn family_view(a: DynamicFamilyAssignment) -> FamilyView {
    FamilyView {
        family_id: a.family_id,
        subfamily_id: a.subfamily_id,
        label: a.label@,
        source_kind: a.source_kind,
        plane: a.plane,
        object_kinds: a.object_kinds@,
        lifecycle: a.lifecycle,
    }
}

pub open spec fn fid(f: DynamicFamilyId) -> u64 {
    f.0 as u64
}

/// `kinds` with each of `more` added, in order, unless already there.
pub open spec fn kinds_merged(kinds: Seq<ObjectKind>, more: Seq<ObjectKind>) -> Seq<ObjectKind>
    decreases more.len(),
{
    if more.len() == 0 {
        kinds
    } else {
        let k = kinds_merged(kinds, more.drop_last());
        if k.contains(more.last()) { k } else { k.push(more.last()) }
    }
}

/// Family `t` after absorbing family `o`: the counts added (saturating),
/// the larger salience and last sighting, the earlier non-zero creation
/// tick, `o`'s source kind where `t` has none, and `o`'s object kinds that
/// `t` lacks.
pub open spec fn absorbed(t: FamilyView, o: FamilyView) -> FamilyView {
    let tl = t.lifecycle;
    let ol = o.lifecycle;
    FamilyView {
        lifecycle: ObjectLifecycleMeta {
            support_count: sat_add_u32(tl.support_count, ol.support_count),
            success_count: sat_add_u32(tl.success_count, ol.success_count),
            failure_count: sat_add_u32(tl.failure_count, ol.failure_count),
            salience: if tl.salience >= ol.salience { tl.salience } else { ol.salience },
            last_seen_tick: if tl.last_seen_tick >= ol.last_seen_tick { tl.last_seen_tick } else { ol.last_seen_tick },
            creation_tick: if tl.creation_tick == 0 {
                ol.creation_tick
            } else if ol.creation_tick == 0 {
                tl.creation_tick
            } else if tl.creation_tick <= ol.creation_tick {
                tl.creation_tick
            } else {
                ol.creation_tick
            },
            ..tl
        },
        source_kind: if t.source_kind is None { o.source_kind } else { t.source_kind },
        object_kinds: kinds_merged(t.object_kinds, o.object_kinds),
        ..t
    }
}

/// `t` after absorbing each of `s` in order.
pub open spec fn absorbed_all(t: FamilyView, s: Seq<FamilyView>) -> FamilyView
    decreases s.len(),
{
    if s.len() == 0 {
        t
    } else {
        absorbed(absorbed_all(t, s.drop_last()), s.last())
    }
}

/// The families left and those taken out, in order, after the first `n`
/// related ids: each present one other than the target is taken out.
pub open spec fn taken_related(m: Map<u64, FamilyView>, rel: Seq<DynamicFamilyId>, target: DynamicFamilyId, n: nat) -> (Map<u64, FamilyView>, Seq<FamilyView>)
    decreases n,
{
    if n == 0 {
        (m, Seq::empty())
    } else {
        let (m1, acc) = taken_related(m, rel, target, (n - 1) as nat);
        let r = rel[n - 1];
        if r == target || !m1.contains_key(fid(r)) {
            (m1, acc)
        } else {
            (m1.remove(fid(r)), acc.push(m1[fid(r)]))
        }
    }
}

/// The families after merging the related ones into the target: when any
/// related family was present, the target (or, when it is absent, the
/// first related family taken, renumbered) absorbs the others in order.
pub open spec fn merged_families(m: Map<u64, FamilyView>, target: DynamicFamilyId, rel: Seq<DynamicFamilyId>) -> Map<u64, FamilyView> {
    let (m1, acc) = taken_related(m, rel, target, rel.len());
    if acc.len() == 0 {
        m1
    } else if m1.contains_key(fid(target)) {
        m1.insert(fid(target), absorbed_all(m1[fid(target)], acc))
    } else {
        m1.insert(fid(target), absorbed_all(FamilyView { family_id: target, ..acc[0] }, acc.drop_first()))
    }
}

/// The families after an operation: merge, relabel, promote or retire the
/// target (a split changes nothing), then retire it too when the operation
/// says so.
pub open spec fn ontology_after(m: Map<u64, FamilyView>, op: OntologyOperation) -> Map<u64, FamilyView> {
    let k = fid(op.target_family);
    let step = match op.kind {
        OntologyOperationKind::Merge => merged_families(m, op.target_family, op.related_families@),
        OntologyOperationKind::Split => m,
        OntologyOperationKind::Relabel => match op.relabel_to {
            Some(l) => if m.contains_key(k) { m.insert(k, FamilyView { label: l@, ..m[k] }) } else { m },
            None => m,
        },
        OntologyOperationKind::Promote => match op.promote_to {
            Some(level) => if m.contains_key(k) {
                m.insert(k, FamilyView { lifecycle: ObjectLifecycleMeta { promotion_level: level, ..m[k].lifecycle }, ..m[k] })
            } else {
                m
            },
            None => m,
        },
        OntologyOperationKind::Retire => m.remove(k),
    };
    if op.retire && op.kind != OntologyOperationKind::Retire {
        step.remove(k)
    } else {
        step
    }
}

fn kinds_contain(v: &Vec<ObjectKind>, k: ObjectKind) -> (b: bool)
    ensures
        b == v@.contains(k),
{
    let mut i: usize = 0;
    while i < v.len()
        invariant
            i <= v@.len(),
            forall|j: int| 0 <= j < i ==> v@[j] != k,
        decreases v@.len() - i,
    {
        if v[i] == k {
            return true;
        }
        i = i + 1;
    }
    false
}

fn absorb_family_assignment(target: &mut DynamicFamilyAssignment, other: DynamicFamilyAssignment)
    ensures
        family_view(*final(target)) == absorbed(family_view(*old(target)), family_view(other)),
{
    let ol = other.lifecycle;
    target.lifecycle.support_count = target.lifecycle.support_count.saturating_add(ol.support_count);
    target.lifecycle.success_count = target.lifecycle.success_count.saturating_add(ol.success_count);
    target.lifecycle.failure_count = target.lifecycle.failure_count.saturating_add(ol.failure_count);
    if ol.salience > target.lifecycle.salience {
        target.lifecycle.salience = ol.salience;
    }
    if ol.last_seen_tick > target.lifecycle.last_seen_tick {
        target.lifecycle.last_seen_tick = ol.last_seen_tick;
    }
    target.lifecycle.creation_tick = if target.lifecycle.creation_tick == 0 {
        ol.creation_tick
    } else if ol.creation_tick == 0 {
        target.lifecycle.creation_tick
    } else if target.lifecycle.creation_tick <= ol.creation_tick {
        target.lifecycle.creation_tick
    } else {
        ol.creation_tick
    };
    if target.source_kind.is_none() {
        target.source_kind = other.source_kind;
    }
    let more = &other.object_kinds;
    let ghost start = target.object_kinds@;
    let ghost t1 = *target;
    let mut i: usize = 0;
    while i < more.len()
        invariant
            i <= more@.len(),
            target.lifecycle == t1.lifecycle,
            target.source_kind == t1.source_kind,
            target.label == t1.label,
            target.family_id == t1.family_id,
            target.subfamily_id == t1.subfamily_id,
            target.plane == t1.plane,
            target.object_kinds@ == kinds_merged(start, more@.take(i as int)),
        decreases more@.len() - i,
    {
        proof {
            assert(more@.take(i + 1).drop_last() =~= more@.take(i as int));
        }
        let k = more[i];
        if !kinds_contain(&target.object_kinds, k) {
            target.object_kinds.push(k);
        }
        i = i + 1;
    }
    assert(more@.take(i as int) =~= more@);
}

impl OntologyState {
    pub fn new() -> (s: Self)
        ensures
            s.wf(),
            s.families_view() == Map::<u64, FamilyView>::empty(),
            s.history@.len() == 0,
    {
        let s = OntologyState { families: U64Map::new(), history: Vec::new() };
        assert(s.families_view() =~= Map::<u64, FamilyView>::empty());
        s
    }

    pub open spec fn wf(&self) -> bool {
        &&& self.families.wf()
        &&& forall|k: u64| #[trigger] self.families.map().contains_key(k) ==> k <= 0xffff_ffff
    }

    /// The families by id, as values.
    pub open spec fn families_view(&self) -> Map<u64, FamilyView> {
        self.families.map().map_values(|a: DynamicFamilyAssignment| family_view(a))
    }
}

pub open spec fn views(s: Seq<DynamicFamilyAssignment>) -> Seq<FamilyView> {
    s.map_values(|a: DynamicFamilyAssignment| family_view(a))
}

impl OntologyState {
    fn merge_families(&mut self, target_family: DynamicFamilyId, related_families: &Vec<DynamicFamilyId>)
        requires
            old(self).wf(),
        ensures
            final(self).wf(),
            final(self).families_view() == merged_families(old(self).families_view(), target_family, related_families@),
            final(self).history == old(self).history,
    {
        let ghost m0 = self.families_view();
        let mut taken: Vec<DynamicFamilyAssignment> = Vec::new();
        let mut i: usize = 0;
        while i < related_families.len()
            invariant
                i <= related_families@.len(),
                self.wf(),
                self.history == old(self).history,
                (self.families_view(), views(taken@)) == taken_related(m0, related_families@, target_family, i as nat),
            decreases related_families@.len() - i,
        {
            let r = related_families[i];
            let ghost before = self.families_view();
            let ghost tv = views(taken@);
            if r.0 != target_family.0 {
                let k = r.0 as u64;
                match self.families.remove(k) {
                    Some(a) => {
                        let ghost av = family_view(a);
                        taken.push(a);
                        proof {
                            assert(self.families_view() =~= before.remove(k));
                            assert(views(taken@) =~= tv.push(av));
                        }
                    },
                    None => {
                        assert(self.families_view() =~= before);
                    },
                }
            }
            i = i + 1;
        }
        if taken.len() == 0 {
            return;
        }
        let ghost m1 = self.families_view();
        let ghost acc = views(taken@);
        let tk = target_family.0 as u64;
        let mut rest = taken;
        let t0 = match self.families.remove(tk) {
            Some(a) => a,
            None => {
                let mut d = rest.remove(0);
                d.family_id = target_family;
                d
            },
        };
        let ghost start = family_view(t0);
        let ghost pending = views(rest@);
        proof {
            if m1.contains_key(tk) {
                assert(pending == acc);
                assert(start == m1[tk]);
            } else {
                assert(pending =~= acc.drop_first());
                assert(start == (FamilyView { family_id: target_family, ..acc[0] }));
            }
        }
        let mut t = t0;
        let ghost mut done: int = 0;
        assert(pending.take(0) =~= Seq::<FamilyView>::empty());
        while rest.len() > 0
            invariant
                0 <= done <= pending.len(),
                views(rest@) == pending.skip(done),
                family_view(t) == absorbed_all(start, pending.take(done)),
            decreases rest@.len(),
        {
            let ghost rv = rest@;
            let o = rest.remove(0);
            proof {
                assert(o == rv[0]);
                assert(views(rv).len() == rv.len());
                assert(pending.skip(done).len() > 0);
                assert(views(rv)[0] == pending.skip(done)[0]);
                assert(pending.skip(done)[0] == pending[done]);
                assert(family_view(o) == pending[done]);
                assert(pending.take(done + 1).drop_last() =~= pending.take(done));
            }
            absorb_family_assignment(&mut t, o);
            proof {
                assert(rest@ =~= rv.drop_first());
                assert(views(rest@) =~= views(rv).drop_first());
                assert(pending.skip(done).drop_first() =~= pending.skip(done + 1));
                done = done + 1;
                assert(views(rest@) =~= pending.skip(done));
            }
        }
        assert(pending.take(done) =~= pending);
        let ghost tv = family_view(t);
        let ghost removed = self.families_view();
        self.families.insert(tk, t);
        proof {
            assert(removed =~= m1.remove(tk));
            assert(self.families_view() =~= m1.insert(tk, tv));
        }
    }

    /// Applies an operation to the families and records it; see
    /// `ontology_after`.
    pub fn apply(&mut self, op: OntologyOperation)
        requires
            old(self).wf(),
        ensures
            final(self).wf(),
            final(self).families_view() == ontology_after(old(self).families_view(), op),
            final(self).history@ == old(self).history@.push(op),
    {
        let k = op.target_family.0 as u64;
        let ghost m = self.families_view();
        match op.kind {
            OntologyOperationKind::Merge => {
                self.merge_families(op.target_family, &op.related_families);
            },
            OntologyOperationKind::Split => {},
            OntologyOperationKind::Relabel => {
                match &op.relabel_to {
                    Some(label) => {
                        match self.families.remove(k) {
                            Some(a) => {
                                let mut a = a;
                                a.label = label.clone();
                                let ghost av = family_view(a);
                                self.families.insert(k, a);
                                assert(self.families_view() =~= m.insert(k, av));
                            },
                            None => {
                                assert(self.families_view() =~= m);
                            },
                        }
                    },
                    None => {},
                }
            },
            OntologyOperationKind::Promote => {
                match op.promote_to {
                    Some(level) => {
                        match self.families.remove(k) {
                            Some(a) => {
                                let mut a = a;
                                a.lifecycle.promotion_level = level;
                                let ghost av = family_view(a);
                                self.families.insert(k, a);
                                assert(self.families_view() =~= m.insert(k, av));
                            },
                            None => {
                                assert(self.families_view() =~= m);
                            },
                        }
                    },
                    None => {},
                }
            },
            OntologyOperationKind::Retire => {
                let _ = self.families.remove(k);
                assert(self.families_view() =~= m.remove(k));
            },
        }
        if op.retire && op.kind != OntologyOperationKind::Retire {
            let ghost m2 = self.families_view();
            let _ = self.families.remove(k);
            assert(self.families_view() =~= m2.remove(k));
        }
        self.history.push(op);
    }
}

impl Default for OntologyState {
    fn default() -> (s: Self)
        ensures
            s.wf(),
            s.families_view() == Map::<u64, FamilyView>::empty(),
            s.history@.len() == 0,
    {
        OntologyState::new()
    }
}

} // verus!
