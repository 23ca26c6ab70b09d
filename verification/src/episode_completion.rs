//! Episode completion: the objects that may come next, merged from the
//! context model's predictions and the sparse traces that resemble the
//! latest activation, scored, ranked and bounded by a policy.

use vstd::prelude::*;
use crate::chpmt::{LagBucket, ObjectKind, PrecisionBand, SparseCue, cue_overlap};
use crate::episode::{
    BranchRank, ContinuationPrediction, EpisodeActivationEvent, lag_between_exec, prediction_matches,
    predictions_spec, EpisodeObjectRef, trace_lag_match, trace_recency_score,
    trace_transition_match, SparseEpisodeTrace, TransitionCount, copy_ref, count_band,
    lag_between, lag_match_spec, object_key, object_key_of, predicted_kind_of, recency_score_spec,
    transition_match_spec,
};
use crate::index::{bytes_less, bytes_lex_lt};
use crate::num::{sat_add_u32, sat_mul_u32};
use crate::catalog::first_n;
use crate::episode_memory::{EpisodeMemory, window_of};

verus! {

#[derive(Debug, Clone, PartialEq, Eq, Default)]
pub struct EpisodeCompletionCandidate {
    pub object_ref: EpisodeObjectRef,
    pub transition_count: TransitionCount,
    pub branch_rank: BranchRank,
    pub precision_band: PrecisionBand,
    pub cue_overlap: u32,
    pub recency_score: u32,
    pub route_support: u32,
    pub transition_match: u32,
    pub lag_bucket: LagBucket,
    pub admissible: bool,
}

#[derive(Debug, Clone, Copy, PartialEq, Eq, Default, Structural)]
pub struct EpisodeCandidatePolicy {
    pub max_fanout: u16,
    pub min_transition_count: u32,
    pub max_branch_rank: u16,
}

impl EpisodeCandidatePolicy {
    /// At most 8 candidates, each seen at least once, ranked at most 7.
    pub fn bounded_default() -> (p: Self)
        ensures
            p == (EpisodeCandidatePolicy { max_fanout: 8, min_transition_count: 1, max_branch_rank: 7 }),
    {
        EpisodeCandidatePolicy { max_fanout: 8, min_transition_count: 1, max_branch_rank: 7 }
    }
}

/// What is gathered for one object before it becomes a candidate.
#[derive(Debug, Clone, PartialEq, Eq)]
struct EpisodeAccumulator {
    object_ref: EpisodeObjectRef,
    transition_count: u32,
    branch_rank: u16,
    cue_overlap: u32,
    recency_score: u32,
    route_support: u32,
    transition_match: u32,
    lag_bucket: LagBucket,
    precision_score: u16,
}

/// An accumulator, as values.
pub struct AccEntry {
    pub kind: ObjectKind,
    pub id: Seq<char>,
    pub transition_count: u32,
    pub branch_rank: u16,
    pub cue_overlap: u32,
    pub recency_score: u32,
    pub route_support: u32,
    pub transition_match: u32,
    pub lag_bucket: LagBucket,
    pub precision_score: u16,
}

spec fn acc_view(a: EpisodeAccumulator) -> AccEntry {
    AccEntry {
        kind: a.object_ref.object_kind,
        id: a.object_ref.object_id@,
        transition_count: a.transition_count,
        branch_rank: a.branch_rank,
        cue_overlap: a.cue_overlap,
        recency_score: a.recency_score,
        route_support: a.route_support,
        transition_match: a.transition_match,
        lag_bucket: a.lag_bucket,
        precision_score: a.precision_score,
    }
}

spec fn accs_view(s: Seq<EpisodeAccumulator>) -> Seq<AccEntry> {
    s.map_values(|a: EpisodeAccumulator| acc_view(a))
}

/// The text key an object is merged under: its kind code, a colon, its id.
pub open spec fn acc_key(e: AccEntry) -> Seq<u8> {
    object_key(e.kind, e.id)
}

/// The index of the first entry with this key.
pub open spec fn acc_index(s: Seq<AccEntry>, key: Seq<u8>) -> Option<nat>
    decreases s.len(),
{
    if s.len() == 0 {
        None
    } else if acc_key(s[0]) == key {
        Some(0)
    } else {
        match acc_index(s.drop_first(), key) {
            Some(i) => Some(i + 1),
            None => None,
        }
    }
}

/// The first position whose key the new key sorts strictly before.
pub open spec fn acc_insert_pos(s: Seq<AccEntry>, key: Seq<u8>) -> nat
    decreases s.len(),
{
    if s.len() == 0 {
        0
    } else if bytes_lex_lt(key, acc_key(s[0])) {
        0
    } else {
        1 + acc_insert_pos(s.drop_first(), key)
    }
}

proof fn lemma_acc_pos_bounds(s: Seq<AccEntry>, key: Seq<u8>)
    ensures
        acc_insert_pos(s, key) <= s.len(),
        acc_index(s, key) matches Some(i) ==> i < s.len() && acc_key(s[i as int]) == key,
    decreases s.len(),
{
    if s.len() > 0 {
        lemma_acc_pos_bounds(s.drop_first(), key);
    }
}

/// A fresh entry for the object: nothing counted, no rank yet.
pub open spec fn blank_acc(kind: ObjectKind, id: Seq<char>) -> AccEntry {
    AccEntry {
        kind,
        id,
        transition_count: 0,
        branch_rank: 0xffff,
        cue_overlap: 0,
        recency_score: 0,
        route_support: 0,
        transition_match: 0,
        lag_bucket: LagBucket(0),
        precision_score: 0,
    }
}

/// The entry of the object, or a fresh one.
pub open spec fn acc_get(s: Seq<AccEntry>, kind: ObjectKind, id: Seq<char>) -> AccEntry {
    match acc_index(s, object_key(kind, id)) {
        Some(i) => s[i as int],
        None => blank_acc(kind, id),
    }
}

/// The entries with `e` stored under its key: in place of the entry with
/// that key, or at the key's place in order.
pub open spec fn acc_put(s: Seq<AccEntry>, e: AccEntry) -> Seq<AccEntry> {
    match acc_index(s, acc_key(e)) {
        Some(i) => s.update(i as int, e),
        None => s.insert(acc_insert_pos(s, acc_key(e)) as int, e),
    }
}

fn acc_key_pos(accs: &Vec<EpisodeAccumulator>, key: &Vec<u8>) -> (p: usize)
    ensures
        p == acc_insert_pos(accs_view(accs@), key@),
{
    let ghost cv = accs_view(accs@);
    let mut i: usize = 0;
    assert(cv.subrange(0, cv.len() as int) =~= cv);
    while i < accs.len()
        invariant
            i <= accs@.len(),
            cv == accs_view(accs@),
            acc_insert_pos(cv, key@) == i + acc_insert_pos(cv.subrange(i as int, cv.len() as int), key@),
        decreases accs@.len() - i,
    {
        proof {
            let rest = cv.subrange(i as int, cv.len() as int);
            assert(rest[0] == cv[i as int]);
            assert(rest.drop_first() =~= cv.subrange(i + 1, cv.len() as int));
        }
        let k = object_key_of(&accs[i].object_ref);
        if bytes_less(key.as_slice(), k.as_slice()) {
            return i;
        }
        i = i + 1;
    }
    proof {
        assert(cv.subrange(i as int, cv.len() as int).len() == 0);
    }
    i
}

/// Takes the entry of `r` out of the accumulators, or makes a fresh one,
/// and gives the place to put it back.
fn acc_take(accs: &mut Vec<EpisodeAccumulator>, r: &EpisodeObjectRef) -> (res: (EpisodeAccumulator, usize))
    ensures
        acc_view(res.0) == acc_get(accs_view(old(accs)@), r.object_kind, r.object_id@),
        match acc_index(accs_view(old(accs)@), object_key(r.object_kind, r.object_id@)) {
            Some(i) => res.1 == i && final(accs)@ == old(accs)@.remove(i as int),
            None => res.1 == acc_insert_pos(accs_view(old(accs)@), object_key(r.object_kind, r.object_id@))
                && final(accs)@ == old(accs)@,
        },
        res.1 <= final(accs)@.len(),
{
    let key = object_key_of(r);
    let ghost cv = accs_view(accs@);
    let mut i: usize = 0;
    assert(cv.skip(0) =~= cv);
    while i < accs.len()
        invariant
            i <= accs@.len(),
            cv == accs_view(accs@),
            accs@ == old(accs)@,
            key@ == object_key(r.object_kind, r.object_id@),
            acc_index(cv, key@) == match acc_index(cv.skip(i as int), key@) {
                Some(j) => Some((j + i) as nat),
                None => None,
            },
        decreases accs@.len() - i,
    {
        proof {
            let rest = cv.skip(i as int);
            assert(rest[0] == cv[i as int]);
            assert(rest.drop_first() =~= cv.skip(i + 1));
        }
        let k = object_key_of(&accs[i].object_ref);
        if crate::compress::bytes_equal(k.as_slice(), key.as_slice()) {
            let a = accs.remove(i);
            proof {
                lemma_acc_pos_bounds(cv, key@);
            }
            return (a, i);
        }
        i = i + 1;
    }
    proof {
        assert(acc_index(cv, key@) is None);
        lemma_acc_pos_bounds(cv, key@);
    }
    let p = acc_key_pos(accs, &key);
    let a = EpisodeAccumulator {
        object_ref: copy_ref(r),
        transition_count: 0,
        branch_rank: 0xffff,
        cue_overlap: 0,
        recency_score: 0,
        route_support: 0,
        transition_match: 0,
        lag_bucket: LagBucket(0),
        precision_score: 0,
    };
    (a, p)
}

/// Puts an entry back where `acc_take` said.
proof fn lemma_acc_put_back(s: Seq<AccEntry>, e: AccEntry, kind: ObjectKind, id: Seq<char>, p: nat)
    requires
        acc_key(e) == object_key(kind, id),
        match acc_index(s, object_key(kind, id)) {
            Some(i) => p == i,
            None => p == acc_insert_pos(s, object_key(kind, id)),
        },
    ensures
        acc_put(s, e) == match acc_index(s, object_key(kind, id)) {
            Some(i) => s.remove(i as int).insert(p as int, e),
            None => s.insert(p as int, e),
        },
{
    lemma_acc_pos_bounds(s, object_key(kind, id));
    if let Some(i) = acc_index(s, object_key(kind, id)) {
        assert(s.remove(i as int).insert(p as int, e) =~= s.update(i as int, e));
    }
}

// ---------------------------------------------------------------------------
// Merging predictions and traces
// ---------------------------------------------------------------------------

/// The entries after one prediction: its count added, the better of the
/// two ranks kept, the higher precision kept.
pub open spec fn pred_step(s: Seq<AccEntry>, kind: ObjectKind, id: Seq<char>, count: u32, rank: u16, score: u16) -> Seq<AccEntry> {
    let e = acc_get(s, kind, id);
    acc_put(
        s,
        AccEntry {
            kind,
            id,
            transition_count: sat_add_u32(e.transition_count, count),
            branch_rank: if rank < e.branch_rank { rank } else { e.branch_rank },
            precision_score: if score > e.precision_score { score } else { e.precision_score },
            ..e
        },
    )
}

/// The entries after the first `n` ranked continuations, the `i`th
/// reported with rank `i`.
pub open spec fn pred_fold(ents: Seq<(ObjectKind, Seq<char>, u32)>, n: nat) -> Seq<AccEntry>
    decreases n,
{
    if n == 0 {
        Seq::empty()
    } else {
        let i = n - 1;
        pred_step(
            pred_fold(ents, (n - 1) as nat),
            predicted_kind_of(ents[i].0),
            ents[i].1,
            ents[i].2,
            i as u16,
            count_band(ents[i].2).score_spec(),
        )
    }
}

/// The precision a trace lends: tight for a strong cue or route, balanced
/// for a fair cue or a matching transition, broad otherwise.
pub open spec fn trace_precision(cue: u32, route: u32, transition: u32) -> u16 {
    if cue >= 12 || route >= 16 {
        PrecisionBand::Tight.score_spec()
    } else if cue >= 6 || transition >= 16 {
        PrecisionBand::Balanced.score_spec()
    } else {
        PrecisionBand::Broad.score_spec()
    }
}

pub open spec fn max_u32(a: u32, b: u32) -> u32 {
    if a >= b { a } else { b }
}

/// The entries after one trace, unless it shares nothing with the latest
/// activation: its support, a share of its route support and lag match
/// added to the count, the largest cue overlap, recency, route support and
/// transition match kept, its lag taken.
pub open spec fn trace_step(s: Seq<AccEntry>, t: SparseEpisodeTrace, cue: SparseCue, prev_kind: Option<ObjectKind>, lag: LagBucket, last_tick: u64) -> Seq<AccEntry> {
    let co = cue_overlap(cue, t.cue) as u32;
    let tm = transition_match_spec(prev_kind, t.transition);
    let lm = lag_match_spec(lag, t.lag_bucket);
    let rs = t.route_wins.support_spec();
    let rc = recency_score_spec(last_tick, t.recency_tick);
    if co == 0 && tm == 0 && rs == 0 {
        s
    } else {
        let e = acc_get(s, t.object_ref.object_kind, t.object_ref.object_id@);
        let ps = trace_precision(co, rs, tm);
        acc_put(
            s,
            AccEntry {
                kind: t.object_ref.object_kind,
                id: t.object_ref.object_id@,
                transition_count: sat_add_u32(sat_add_u32(sat_add_u32(e.transition_count, t.support_count), rs / 8), lm / 4),
                branch_rank: if e.id.len() == 0 { 0xffff } else { e.branch_rank },
                cue_overlap: max_u32(e.cue_overlap, co),
                recency_score: max_u32(e.recency_score, rc),
                route_support: max_u32(e.route_support, rs),
                transition_match: max_u32(e.transition_match, tm),
                lag_bucket: t.lag_bucket,
                precision_score: if ps > e.precision_score { ps } else { e.precision_score },
            },
        )
    }
}

/// The entries after the first `n` traces.
pub open spec fn trace_fold(s: Seq<AccEntry>, traces: Seq<SparseEpisodeTrace>, n: nat, cue: SparseCue, prev_kind: Option<ObjectKind>, lag: LagBucket, last_tick: u64) -> Seq<AccEntry>
    decreases n,
{
    if n == 0 {
        s
    } else {
        trace_step(trace_fold(s, traces, (n - 1) as nat, cue, prev_kind, lag, last_tick), traces[n - 1], cue, prev_kind, lag, last_tick)
    }
}

fn apply_prediction(accs: &mut Vec<EpisodeAccumulator>, p: &ContinuationPrediction)
    ensures
        accs_view(final(accs)@) == pred_step(
            accs_view(old(accs)@),
            p.predicted_kind,
            p.predicted_object_id@,
            p.transition_count.0,
            p.branch_rank.0,
            p.precision_band.score_spec(),
        ),
{
    let r = EpisodeObjectRef { object_kind: p.predicted_kind, object_id: p.predicted_object_id.clone() };
    let ghost s = accs_view(accs@);
    let ghost o = accs@;
    let (mut a, pos) = acc_take(accs, &r);
    a.object_ref = r;
    a.transition_count = a.transition_count.saturating_add(p.transition_count.0);
    if p.branch_rank.0 < a.branch_rank {
        a.branch_rank = p.branch_rank.0;
    }
    let score = p.precision_band.score_value().0;
    if score > a.precision_score {
        a.precision_score = score;
    }
    let ghost av = acc_view(a);
    accs.insert(pos, a);
    proof {
        lemma_acc_put_back(s, av, p.predicted_kind, p.predicted_object_id@, pos as nat);
        lemma_acc_pos_bounds(s, object_key(p.predicted_kind, p.predicted_object_id@));
        match acc_index(s, object_key(p.predicted_kind, p.predicted_object_id@)) {
            Some(i) => {
                assert(accs_view(accs@) =~= s.remove(i as int).insert(pos as int, av));
            },
            None => {
                assert(accs_view(accs@) =~= s.insert(pos as int, av));
            },
        }
    }
}

#[verifier::rlimit(40)]
#[verifier::spinoff_prover]
fn apply_trace(accs: &mut Vec<EpisodeAccumulator>, t: &SparseEpisodeTrace, cue: SparseCue, prev_kind: Option<ObjectKind>, lag: LagBucket, last_tick: u64)
    ensures
        accs_view(final(accs)@) == trace_step(accs_view(old(accs)@), *t, cue, prev_kind, lag, last_tick),
{
    let co = cue.overlap_score(t.cue);
    let tm = trace_transition_match(prev_kind, t.transition);
    let lm = trace_lag_match(lag, t.lag_bucket);
    let rs = t.route_wins.support_score();
    let rc = trace_recency_score(last_tick, t.recency_tick);
    if co == 0 && tm == 0 && rs == 0 {
        return;
    }
    let ghost s = accs_view(accs@);
    let (mut a, pos) = acc_take(accs, &t.object_ref);
    let was_empty = a.object_ref.object_id.as_str().is_empty();
    a.object_ref = copy_ref(&t.object_ref);
    if was_empty {
        a.branch_rank = 0xffff;
    }
    a.transition_count = a.transition_count.saturating_add(t.support_count).saturating_add(rs / 8).saturating_add(lm / 4);
    if co > a.cue_overlap {
        a.cue_overlap = co;
    }
    if rc > a.recency_score {
        a.recency_score = rc;
    }
    if rs > a.route_support {
        a.route_support = rs;
    }
    if tm > a.transition_match {
        a.transition_match = tm;
    }
    a.lag_bucket = t.lag_bucket;
    let ps: u16 = if co >= 12 || rs >= 16 {
        PrecisionBand::Tight.score_value().0
    } else if co >= 6 || tm >= 16 {
        PrecisionBand::Balanced.score_value().0
    } else {
        PrecisionBand::Broad.score_value().0
    };
    if ps > a.precision_score {
        a.precision_score = ps;
    }
    let ghost av = acc_view(a);
    accs.insert(pos, a);
    proof {
        let kind = t.object_ref.object_kind;
        let id = t.object_ref.object_id@;
        lemma_acc_put_back(s, av, kind, id, pos as nat);
        lemma_acc_pos_bounds(s, object_key(kind, id));
        match acc_index(s, object_key(kind, id)) {
            Some(i) => {
                assert(accs_view(accs@) =~= s.remove(i as int).insert(pos as int, av));
            },
            None => {
                assert(accs_view(accs@) =~= s.insert(pos as int, av));
            },
        }
    }
}

// ---------------------------------------------------------------------------
// Admitting and ranking
// ---------------------------------------------------------------------------

/// The entries that become candidates, in key order: those with an id whose
/// count and rank (no rank counting as rank 0) the policy admits.
pub open spec fn admitted(s: Seq<AccEntry>, policy: EpisodeCandidatePolicy) -> Seq<AccEntry>
    decreases s.len(),
{
    if s.len() == 0 {
        s
    } else {
        let rest = admitted(s.drop_last(), policy);
        let e = s.last();
        let br: u16 = if e.branch_rank == 0xffff { 0 } else { e.branch_rank };
        if e.id.len() > 0 && e.transition_count >= policy.min_transition_count && br <= policy.max_branch_rank {
            rest.push(AccEntry { branch_rank: br, ..e })
        } else {
            rest
        }
    }
}

/// A candidate's score: count, twice the cue overlap, twice the route
/// support, recency and transition match, all saturating.
pub open spec fn cand_score(e: AccEntry) -> u32 {
    sat_add_u32(
        sat_add_u32(
            sat_add_u32(sat_add_u32(e.transition_count, sat_mul_u32(e.cue_overlap, 2)), sat_mul_u32(e.route_support, 2)),
            e.recency_score,
        ),
        e.transition_match,
    )
}

/// `a` ranks strictly before `b`: higher score, then more route support,
/// cue overlap, recency, transition match and count, then the lower rank,
/// then the id that sorts first.
pub open spec fn cand_before(a: AccEntry, b: AccEntry) -> bool {
    if cand_score(a) != cand_score(b) {
        cand_score(a) > cand_score(b)
    } else if a.route_support != b.route_support {
        a.route_support > b.route_support
    } else if a.cue_overlap != b.cue_overlap {
        a.cue_overlap > b.cue_overlap
    } else if a.recency_score != b.recency_score {
        a.recency_score > b.recency_score
    } else if a.transition_match != b.transition_match {
        a.transition_match > b.transition_match
    } else if a.transition_count != b.transition_count {
        a.transition_count > b.transition_count
    } else if a.branch_rank != b.branch_rank {
        a.branch_rank < b.branch_rank
    } else {
        bytes_lex_lt(vstd::utf8::encode_utf8(a.id), vstd::utf8::encode_utf8(b.id))
    }
}

pub open spec fn cand_insert_pos(s: Seq<AccEntry>, x: AccEntry) -> nat
    decreases s.len(),
{
    if s.len() == 0 {
        0
    } else if cand_before(x, s[0]) {
        0
    } else {
        1 + cand_insert_pos(s.drop_first(), x)
    }
}

/// The candidates ranked, equal ones in their original order.
pub open spec fn cands_ranked(s: Seq<AccEntry>) -> Seq<AccEntry>
    decreases s.len(),
{
    if s.len() == 0 {
        s
    } else {
        let t = cands_ranked(s.drop_last());
        t.insert(cand_insert_pos(t, s.last()) as int, s.last())
    }
}

proof fn lemma_cand_insert_pos_bound(s: Seq<AccEntry>, x: AccEntry)
    ensures
        cand_insert_pos(s, x) <= s.len(),
    decreases s.len(),
{
    if s.len() > 0 {
        lemma_cand_insert_pos_bound(s.drop_first(), x);
    }
}

proof fn lemma_cands_ranked_len(s: Seq<AccEntry>)
    ensures
        cands_ranked(s).len() == s.len(),
    decreases s.len(),
{
    if s.len() > 0 {
        lemma_cands_ranked_len(s.drop_last());
        lemma_cand_insert_pos_bound(cands_ranked(s.drop_last()), s.last());
    }
}

fn admit_entries(accs: &Vec<EpisodeAccumulator>, policy: EpisodeCandidatePolicy) -> (out: Vec<EpisodeAccumulator>)
    ensures
        accs_view(out@) == admitted(accs_view(accs@), policy),
{
    let ghost sv = accs_view(accs@);
    let mut out: Vec<EpisodeAccumulator> = Vec::new();
    let mut i: usize = 0;
    while i < accs.len()
        invariant
            i <= accs@.len(),
            sv == accs_view(accs@),
            accs_view(out@) == admitted(sv.take(i as int), policy),
        decreases accs@.len() - i,
    {
        let a = &accs[i];
        let br: u16 = if a.branch_rank == 0xffff { 0 } else { a.branch_rank };
        proof {
            assert(sv.take(i + 1).drop_last() =~= sv.take(i as int));
            assert(sv.take(i + 1).last() == acc_view(accs@[i as int]));
        }
        if !a.object_ref.object_id.as_str().is_empty() && a.transition_count >= policy.min_transition_count && br <= policy.max_branch_rank {
            let e = EpisodeAccumulator {
                object_ref: copy_ref(&a.object_ref),
                transition_count: a.transition_count,
                branch_rank: br,
                cue_overlap: a.cue_overlap,
                recency_score: a.recency_score,
                route_support: a.route_support,
                transition_match: a.transition_match,
                lag_bucket: a.lag_bucket,
                precision_score: a.precision_score,
            };
            let ghost ev = acc_view(e);
            out.push(e);
            proof {
                assert(accs_view(out@) =~= admitted(sv.take(i as int), policy).push(ev));
            }
        }
        i = i + 1;
    }
    assert(sv.take(i as int) =~= sv);
    out
}

fn cand_score_exec(a: &EpisodeAccumulator) -> (s: u32)
    ensures
        s == cand_score(acc_view(*a)),
{
    a.transition_count.saturating_add(crate::num::saturating_mul_u32(a.cue_overlap, 2)).saturating_add(
        crate::num::saturating_mul_u32(a.route_support, 2),
    ).saturating_add(a.recency_score).saturating_add(a.transition_match)
}

fn cand_before_exec(a: &EpisodeAccumulator, b: &EpisodeAccumulator) -> (r: bool)
    ensures
        r == cand_before(acc_view(*a), acc_view(*b)),
{
    let sa = cand_score_exec(a);
    let sb = cand_score_exec(b);
    if sa != sb {
        return sa > sb;
    }
    if a.route_support != b.route_support {
        return a.route_support > b.route_support;
    }
    if a.cue_overlap != b.cue_overlap {
        return a.cue_overlap > b.cue_overlap;
    }
    if a.recency_score != b.recency_score {
        return a.recency_score > b.recency_score;
    }
    if a.transition_match != b.transition_match {
        return a.transition_match > b.transition_match;
    }
    if a.transition_count != b.transition_count {
        return a.transition_count > b.transition_count;
    }
    if a.branch_rank != b.branch_rank {
        return a.branch_rank < b.branch_rank;
    }
    bytes_less(a.object_ref.object_id.as_str().as_bytes(), b.object_ref.object_id.as_str().as_bytes())
}

fn cand_find_pos(v: &Vec<EpisodeAccumulator>, x: &EpisodeAccumulator) -> (p: usize)
    ensures
        p == cand_insert_pos(accs_view(v@), acc_view(*x)),
{
    let ghost cv = accs_view(v@);
    let mut i: usize = 0;
    assert(cv.subrange(0, cv.len() as int) =~= cv);
    while i < v.len()
        invariant
            i <= v@.len(),
            cv == accs_view(v@),
            cand_insert_pos(cv, acc_view(*x)) == i + cand_insert_pos(cv.subrange(i as int, cv.len() as int), acc_view(*x)),
        decreases v@.len() - i,
    {
        proof {
            let rest = cv.subrange(i as int, cv.len() as int);
            assert(rest[0] == cv[i as int]);
            assert(rest.drop_first() =~= cv.subrange(i + 1, cv.len() as int));
        }
        if cand_before_exec(x, &v[i]) {
            return i;
        }
        i = i + 1;
    }
    proof {
        assert(cv.subrange(i as int, cv.len() as int).len() == 0);
    }
    i
}

fn rank_candidates(v: Vec<EpisodeAccumulator>) -> (r: Vec<EpisodeAccumulator>)
    ensures
        accs_view(r@) == cands_ranked(accs_view(v@)),
{
    let ghost full = accs_view(v@);
    let mut rest = v;
    let mut sorted: Vec<EpisodeAccumulator> = Vec::new();
    let ghost mut seen: Seq<AccEntry> = Seq::empty();
    while rest.len() > 0
        invariant
            accs_view(sorted@) == cands_ranked(seen),
            seen + accs_view(rest@) == full,
        decreases rest@.len(),
    {
        let x = rest.remove(0);
        let ghost xv = acc_view(x);
        proof {
            lemma_cands_ranked_len(seen);
            lemma_cand_insert_pos_bound(accs_view(sorted@), xv);
        }
        let p = cand_find_pos(&sorted, &x);
        let ghost before = sorted@;
        sorted.insert(p, x);
        proof {
            assert(accs_view(sorted@) =~= accs_view(before).insert(p as int, xv));
            assert(seen.push(xv).drop_last() =~= seen);
            let s0 = seen;
            seen = seen.push(xv);
            assert(seen + accs_view(rest@) =~= s0 + (seq![xv] + accs_view(rest@)));
        }
    }
    assert(seen =~= full);
    sorted
}

// ---------------------------------------------------------------------------
// Completion
// ---------------------------------------------------------------------------

/// The cue of the latest activation, or the empty cue.
pub open spec fn latest_cue(events: Seq<EpisodeActivationEvent>) -> SparseCue {
    if events.len() > 0 {
        events.last().cue
    } else {
        SparseCue { family_bits: 0, role_bits: 0, delimiter_bits: 0, length_bucket_bits: 0, temporal_bits: 0 }
    }
}

/// The tick of the latest activation, or zero.
pub open spec fn latest_tick(events: Seq<EpisodeActivationEvent>) -> u64 {
    if events.len() > 0 { events.last().tick } else { 0 }
}

/// The kind of the latest activation's object, if any.
pub open spec fn latest_kind(events: Seq<EpisodeActivationEvent>) -> Option<ObjectKind> {
    if events.len() > 0 { Some(events.last().object_ref.object_kind) } else { None }
}

/// The lag between the two latest activations, or the first bucket.
pub open spec fn latest_lag(events: Seq<EpisodeActivationEvent>) -> LagBucket {
    if events.len() >= 2 {
        lag_between(events.last(), events[events.len() - 2])
    } else {
        LagBucket(0)
    }
}

/// The candidates of the memory before their final ranks: the ranked
/// continuations of the recent context merged with the traces, admitted by
/// the policy, ranked, at most `max_fanout`.
pub open spec fn completion_entries(m: EpisodeMemory, policy: EpisodeCandidatePolicy) -> Seq<AccEntry> {
    let events = m.working_trace.events@;
    let ctx = window_of(events, m.context_model.max_order);
    let ents = predictions_spec(m.context_model, ctx);
    let traces = m.hippocampal_shock.traces@;
    let merged = trace_fold(
        pred_fold(ents, ents.len()),
        traces,
        traces.len(),
        latest_cue(events),
        latest_kind(events),
        latest_lag(events),
        latest_tick(events),
    );
    first_n(cands_ranked(admitted(merged, policy)), policy.max_fanout as nat)
}

/// The band of a precision score.
pub open spec fn band_of(score: u16) -> PrecisionBand {
    if score >= PrecisionBand::Tight.score_spec() {
        PrecisionBand::Tight
    } else if score >= PrecisionBand::Balanced.score_spec() {
        PrecisionBand::Balanced
    } else {
        PrecisionBand::Broad
    }
}

/// Candidate `c` is entry `e` ranked `i`th: admissible when its count
/// reaches the minimum and its rank the maximum.
pub open spec fn candidate_matches(c: EpisodeCompletionCandidate, e: AccEntry, i: int, policy: EpisodeCandidatePolicy) -> bool {
    &&& c.object_ref.object_kind == e.kind
    &&& c.object_ref.object_id@ == e.id
    &&& c.transition_count == TransitionCount(e.transition_count)
    &&& c.branch_rank == BranchRank(i as u16)
    &&& c.precision_band == band_of(e.precision_score)
    &&& c.cue_overlap == e.cue_overlap
    &&& c.recency_score == e.recency_score
    &&& c.route_support == e.route_support
    &&& c.transition_match == e.transition_match
    &&& c.lag_bucket == e.lag_bucket
    &&& c.admissible == (e.transition_count >= policy.min_transition_count && (i as u16) <= policy.max_branch_rank)
}

/// The objects that may come next, ranked: see `completion_entries` and
/// `candidate_matches`.
pub fn generate_episode_completion_candidates(memory: &EpisodeMemory, policy: EpisodeCandidatePolicy) -> (r: Vec<EpisodeCompletionCandidate>)
    ensures
        r@.len() == completion_entries(*memory, policy).len(),
        forall|i: int| 0 <= i < r@.len() ==> candidate_matches(#[trigger] r@[i], completion_entries(*memory, policy)[i], i, policy),
{
    let events = &memory.working_trace.events;
    let context = memory.recent_context_hashes();
    let n = events.len();
    let partial_cue = if n > 0 {
        events[n - 1].cue
    } else {
        SparseCue { family_bits: 0, role_bits: 0, delimiter_bits: 0, length_bucket_bits: 0, temporal_bits: 0 }
    };
    let last_tick: u64 = if n > 0 { events[n - 1].tick } else { 0 };
    let previous_kind: Option<ObjectKind> = if n > 0 { Some(events[n - 1].object_ref.object_kind) } else { None };
    let observed_lag = if n >= 2 { lag_between_exec(&events[n - 1], &events[n - 2]) } else { LagBucket(0) };
    let ghost ents = predictions_spec(memory.context_model, context@);
    let predictions = memory.context_model.predict_next_kind(&context);
    let mut accs: Vec<EpisodeAccumulator> = Vec::new();
    let mut i: usize = 0;
    assert(accs_view(accs@) =~= Seq::<AccEntry>::empty());
    while i < predictions.len()
        invariant
            i <= predictions@.len(),
            predictions@.len() == ents.len(),
            forall|k: int| 0 <= k < predictions@.len() ==> prediction_matches(#[trigger] predictions@[k], context@, ents[k], k),
            accs_view(accs@) == pred_fold(ents, i as nat),
        decreases predictions@.len() - i,
    {
        proof {
            assert(prediction_matches(predictions@[i as int], context@, ents[i as int], i as int));
        }
        apply_prediction(&mut accs, &predictions[i]);
        i = i + 1;
    }
    let traces = &memory.hippocampal_shock.traces;
    let ghost base = accs_view(accs@);
    let mut j: usize = 0;
    while j < traces.len()
        invariant
            j <= traces@.len(),
            accs_view(accs@) == trace_fold(base, traces@, j as nat, partial_cue, previous_kind, observed_lag, last_tick),
        decreases traces@.len() - j,
    {
        apply_trace(&mut accs, &traces[j], partial_cue, previous_kind, observed_lag, last_tick);
        j = j + 1;
    }
    let admitted_accs = admit_entries(&accs, policy);
    let mut ranked = rank_candidates(admitted_accs);
    ranked.truncate(policy.max_fanout as usize);
    let ghost fin = accs_view(ranked@);
    assert(fin =~= completion_entries(*memory, policy));
    let mut out: Vec<EpisodeCompletionCandidate> = Vec::new();
    let mut k: usize = 0;
    while k < ranked.len()
        invariant
            k <= ranked@.len(),
            fin == accs_view(ranked@),
            fin == completion_entries(*memory, policy),
            out@.len() == k,
            forall|q: int| 0 <= q < k ==> candidate_matches(#[trigger] out@[q], fin[q], q, policy),
        decreases ranked@.len() - k,
    {
        let a = &ranked[k];
        let band = if a.precision_score >= PrecisionBand::Tight.score_value().0 {
            PrecisionBand::Tight
        } else if a.precision_score >= PrecisionBand::Balanced.score_value().0 {
            PrecisionBand::Balanced
        } else {
            PrecisionBand::Broad
        };
        let rank = k as u16;
        out.push(EpisodeCompletionCandidate {
            object_ref: copy_ref(&a.object_ref),
            transition_count: TransitionCount(a.transition_count),
            branch_rank: BranchRank(rank),
            precision_band: band,
            cue_overlap: a.cue_overlap,
            recency_score: a.recency_score,
            route_support: a.route_support,
            transition_match: a.transition_match,
            lag_bucket: a.lag_bucket,
            admissible: a.transition_count >= policy.min_transition_count && rank <= policy.max_branch_rank,
        });
        k = k + 1;
    }
    out
}

} // verus!
