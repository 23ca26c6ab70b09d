//! The context-tree route governor and the sparse cue index: per-context
//! outcome statistics that bias route choice, and a partitioned index of
//! objects that completion queries rank by cue overlap.

use vstd::prelude::*;
use crate::chpmt::{
    ContextTreeNodeStats, ContextTreeOutcome, ContextTreeSymbol, CueFamily, ObjectKind,
    ObjectLifecycleMeta, RouteGovernorSignal, SparseCue, cue_overlap,
};
use crate::num::{sat_add_u32, sat_mul_u32, sat_sub_u32};
use crate::source::SourceKind;

verus! {

// ---------------------------------------------------------------------------
// Context-tree governor
// ---------------------------------------------------------------------------

/// The statistics kept under `key`, if any (the first entry with that key).
pub open spec fn stats_lookup(stats: Seq<(Vec<u16>, ContextTreeNodeStats)>, key: Seq<u16>) -> Option<ContextTreeNodeStats>
    decreases stats.len(),
{
    if stats.len() == 0 {
        None
    } else if stats[0].0@ == key {
        Some(stats[0].1)
    } else {
        stats_lookup(stats.drop_first(), key)
    }
}

/// No key occurs twice.
pub open spec fn keys_unique(stats: Seq<(Vec<u16>, ContextTreeNodeStats)>) -> bool {
    forall|i: int, j: int| 0 <= i < j < stats.len() ==> (#[trigger] stats[i]).0@ != (#[trigger] stats[j]).0@
}

pub open spec fn zero_stats() -> ContextTreeNodeStats {
    ContextTreeNodeStats {
        observations: 0,
        successes: 0,
        failures: 0,
        fallbacks: 0,
        sync_failures: 0,
        contradiction_mass: 0,
    }
}

/// The deepest context the governor looks at for a symbol of eight atoms.
pub open spec fn governor_depth(max_depth: u8) -> int {
    let d: int = if max_depth >= 1 { max_depth as int } else { 1 };
    if d < 8 {
        d
    } else {
        8
    }
}

/// Weighted sums over the contexts of depth `1..=d`: successes, failures,
/// fallbacks, sync failures, contradiction mass and total weight, each in
/// saturating `u32` arithmetic with the depth as the weight.
pub open spec fn weighted_sums(stats: Seq<(Vec<u16>, ContextTreeNodeStats)>, atoms: Seq<u16>, d: nat) -> (u32, u32, u32, u32, u32, u32)
    decreases d,
{
    if d == 0 {
        (0, 0, 0, 0, 0, 0)
    } else {
        let a = weighted_sums(stats, atoms, (d - 1) as nat);
        match stats_lookup(stats, atoms.take(d as int)) {
            None => a,
            Some(s) => {
                let w = d as u32;
                (
                    sat_add_u32(a.0, sat_mul_u32(s.successes, w)),
                    sat_add_u32(a.1, sat_mul_u32(s.failures, w)),
                    sat_add_u32(a.2, sat_mul_u32(s.fallbacks, w)),
                    sat_add_u32(a.3, sat_mul_u32(s.sync_failures, w)),
                    sat_add_u32(a.4, sat_mul_u32(s.contradiction_mass, w)),
                    sat_add_u32(a.5, w),
                )
            },
        }
    }
}

pub open spec fn min_u32(a: u32, b: u32) -> u32 {
    if a <= b {
        a
    } else {
        b
    }
}

/// The route signal the governor gives for a symbol.
pub open spec fn signal_spec(stats: Seq<(Vec<u16>, ContextTreeNodeStats)>, max_depth: u8, symbol: ContextTreeSymbol) -> RouteGovernorSignal {
    let sums = weighted_sums(stats, symbol.atoms_spec(), governor_depth(max_depth) as nat);
    let w = sums.5;
    if w == 0 {
        RouteGovernorSignal {
            route_family: symbol.route_family,
            prior_gain: 0,
            failure_penalty: 0,
            suppression_penalty: 0,
            residual_penalty: 0,
            sync_penalty: 0,
        }
    } else {
        let success = (sums.0 / w) as u32;
        let failure = (sums.1 / w) as u32;
        let fallback = (sums.2 / w) as u32;
        let sync = (sums.3 / w) as u32;
        let contradiction = (sums.4 / w) as u32;
        let trouble = sat_add_u32(sat_add_u32(failure, fallback), sync);
        RouteGovernorSignal {
            route_family: symbol.route_family,
            prior_gain: min_u32(sat_sub_u32(sat_mul_u32(success, 10), sat_mul_u32(failure, 2)), 96),
            failure_penalty: min_u32(sat_add_u32(sat_mul_u32(failure, 8), sat_mul_u32(fallback, 6)), 128),
            suppression_penalty: if trouble > success {
                min_u32(sat_mul_u32(trouble, 6), 160)
            } else {
                0
            },
            residual_penalty: min_u32((contradiction / 8) as u32, 48),
            sync_penalty: min_u32(sat_mul_u32(sync, 8), 48),
        }
    }
}

fn u16s_equal(a: &[u16], b: &[u16]) -> (r: bool)
    ensures
        r == (a@ == b@),
{
    if a.len() != b.len() {
        return false;
    }
    let mut i: usize = 0;
    while i < a.len()
        invariant
            a@.len() == b@.len(),
            i <= a@.len(),
            forall|j: int| 0 <= j < i ==> a@[j] == b@[j],
        decreases a@.len() - i,
    {
        if a[i] != b[i] {
            return false;
        }
        i = i + 1;
    }
    assert(a@ =~= b@);
    true
}

/// `a` sorts strictly before `b` in lexicographic order.
pub open spec fn u16s_lex_lt(a: Seq<u16>, b: Seq<u16>) -> bool
    decreases a.len(),
{
    if a.len() == 0 {
        b.len() > 0
    } else if b.len() == 0 {
        false
    } else if a[0] != b[0] {
        a[0] < b[0]
    } else {
        u16s_lex_lt(a.drop_first(), b.drop_first())
    }
}

fn u16s_less(a: &[u16], b: &[u16]) -> (r: bool)
    ensures
        r == u16s_lex_lt(a@, b@),
{
    let mut i: usize = 0;
    assert(a@.subrange(0, a@.len() as int) =~= a@);
    assert(b@.subrange(0, b@.len() as int) =~= b@);
    while i < a.len() && i < b.len()
        invariant
            i <= a@.len(),
            i <= b@.len(),
            u16s_lex_lt(a@, b@) == u16s_lex_lt(
                a@.subrange(i as int, a@.len() as int),
                b@.subrange(i as int, b@.len() as int),
            ),
        decreases a@.len() - i,
    {
        let ghost sa = a@.subrange(i as int, a@.len() as int);
        let ghost sb = b@.subrange(i as int, b@.len() as int);
        proof {
            assert(sa[0] == a@[i as int]);
            assert(sb[0] == b@[i as int]);
            assert(sa.drop_first() =~= a@.subrange(i + 1, a@.len() as int));
            assert(sb.drop_first() =~= b@.subrange(i + 1, b@.len() as int));
        }
        if a[i] != b[i] {
            return a[i] < b[i];
        }
        i = i + 1;
    }
    i == a.len() && i < b.len()
}

/// Outcome statistics for each context prefix of the route symbols seen.
/// `stats` holds each context (a prefix of a symbol's atoms) at most once,
/// in lexicographic order of the contexts.
#[derive(Debug, Clone, PartialEq, Eq)]
pub struct ContextTreeGovernor {
    pub max_depth: u8,
    pub stats: Vec<(Vec<u16>, ContextTreeNodeStats)>,
}

impl ContextTreeGovernor {
    pub open spec fn wf(&self) -> bool {
        keys_unique(self.stats@)
    }

    /// The statistics kept for a context.
    pub open spec fn stats_for(&self, key: Seq<u16>) -> Option<ContextTreeNodeStats> {
        stats_lookup(self.stats@, key)
    }

    /// A governor that looks at contexts up to four atoms deep.
    pub fn new() -> (g: Self)
        ensures
            g.wf(),
            g.max_depth == 4,
            g.stats@.len() == 0,
    {
        ContextTreeGovernor { max_depth: 4, stats: Vec::new() }
    }

    fn find(&self, key: &[u16]) -> (r: Option<usize>)
        requires
            self.wf(),
        ensures
            match r {
                Some(i) => i < self.stats@.len() && self.stats@[i as int].0@ == key@ && self.stats_for(key@)
                    == Some(self.stats@[i as int].1),
                None => self.stats_for(key@) is None,
            },
    {
        let mut i: usize = 0;
        assert(self.stats@.subrange(0, self.stats@.len() as int) =~= self.stats@);
        while i < self.stats.len()
            invariant
                i <= self.stats@.len(),
                stats_lookup(self.stats@, key@) == stats_lookup(
                    self.stats@.subrange(i as int, self.stats@.len() as int),
                    key@,
                ),
            decreases self.stats@.len() - i,
        {
            let ghost rest = self.stats@.subrange(i as int, self.stats@.len() as int);
            proof {
                assert(rest[0] == self.stats@[i as int]);
                assert(rest.drop_first() =~= self.stats@.subrange(i + 1, self.stats@.len() as int));
            }
            if u16s_equal(self.stats[i].0.as_slice(), key) {
                return Some(i);
            }
            i = i + 1;
        }
        None
    }

    /// Records an outcome under every context prefix of the symbol, from one
    /// atom up to the governor's depth.
    pub fn observe(&mut self, symbol: ContextTreeSymbol, outcome: ContextTreeOutcome)
        requires
            old(self).wf(),
        ensures
            final(self).wf(),
            final(self).max_depth == old(self).max_depth,
            forall|d: int| 1 <= d <= governor_depth(old(self).max_depth) ==> #[trigger] final(self).stats_for(
                symbol.atoms_spec().take(d),
            ) == Some(
                match old(self).stats_for(symbol.atoms_spec().take(d)) {
                    Some(s) => s.recorded(outcome),
                    None => zero_stats().recorded(outcome),
                },
            ),
            forall|k: Seq<u16>| (forall|d: int| 1 <= d <= governor_depth(old(self).max_depth) ==> k
                != #[trigger] symbol.atoms_spec().take(d)) ==> #[trigger] final(self).stats_for(k)
                == old(self).stats_for(k),
    {
        let atoms = symbol.atoms();
        let md: u8 = if self.max_depth >= 1 { self.max_depth } else { 1 };
        let max_depth: usize = if (md as usize) < atoms.len() { md as usize } else { atoms.len() };
        let ghost start = self.stats@;
        let ghost depth_limit = governor_depth(self.max_depth);
        assert(max_depth == depth_limit);
        let mut depth: usize = 1;
        while depth <= max_depth
            invariant
                1 <= depth <= max_depth + 1,
                max_depth == depth_limit,
                depth_limit <= 8,
                atoms@ == symbol.atoms_spec(),
                atoms@.len() == 8,
                self.wf(),
                self.max_depth == old(self).max_depth,
                depth_limit == governor_depth(old(self).max_depth),
                start == old(self).stats@,
                forall|d: int| 1 <= d < depth ==> #[trigger] stats_lookup(self.stats@, atoms@.take(d))
                    == Some(
                    match stats_lookup(start, atoms@.take(d)) {
                        Some(s) => s.recorded(outcome),
                        None => zero_stats().recorded(outcome),
                    },
                ),
                forall|k: Seq<u16>| (forall|d: int| 1 <= d < depth ==> k != #[trigger] atoms@.take(d))
                    ==> #[trigger] stats_lookup(self.stats@, k) == stats_lookup(start, k),
            decreases max_depth + 1 - depth,
        {
            let key = crate::wire::copy_prefix_u16(atoms.as_slice(), depth);
            proof {
                assert forall|d: int| 1 <= d < depth implies atoms@.take(d) != key@ by {
                    assert(atoms@.take(d).len() != key@.len());
                }
            }
            let ghost before = self.stats@;
            assert(stats_lookup(before, key@) == stats_lookup(start, key@));
            match self.find(key.as_slice()) {
                Some(i) => {
                    let mut s = self.stats[i].1;
                    s.record(outcome);
                    let ghost gk = key;
                    self.stats.set(i, (key, s));
                    proof {
                        lemma_lookup_set(before, i as int, gk, s);
                    }
                },
                None => {
                    let mut s = ContextTreeNodeStats {
                        observations: 0,
                        successes: 0,
                        failures: 0,
                        fallbacks: 0,
                        sync_failures: 0,
                        contradiction_mass: 0,
                    };
                    s.record(outcome);
                    let p = self.insert_position(key.as_slice());
                    let ghost gk = key;
                    self.stats.insert(p, (key, s));
                    proof {
                        lemma_lookup_insert(before, p as int, gk, s);
                    }
                },
            }
            proof {
                let kd = atoms@.take(depth as int);
                assert forall|d: int| 1 <= d < depth + 1 implies #[trigger] stats_lookup(self.stats@, atoms@.take(d))
                    == Some(
                    match stats_lookup(start, atoms@.take(d)) {
                        Some(s) => s.recorded(outcome),
                        None => zero_stats().recorded(outcome),
                    },
                ) by {
                    if d < depth {
                        assert(atoms@.take(d).len() != kd.len());
                    }
                }
                assert forall|k: Seq<u16>| (forall|d: int| 1 <= d < depth + 1 ==> k != #[trigger] atoms@.take(d))
                    implies #[trigger] stats_lookup(self.stats@, k) == stats_lookup(start, k) by {
                    assert(k != atoms@.take(depth as int));
                }
            }
            depth = depth + 1;
        }
    }

    fn insert_position(&self, key: &[u16]) -> (p: usize)
        ensures
            p <= self.stats@.len(),
            forall|j: int| 0 <= j < p ==> !u16s_lex_lt(key@, (#[trigger] self.stats@[j]).0@),
            p < self.stats@.len() ==> u16s_lex_lt(key@, self.stats@[p as int].0@),
    {
        let mut i: usize = 0;
        while i < self.stats.len()
            invariant
                i <= self.stats@.len(),
                forall|j: int| 0 <= j < i ==> !u16s_lex_lt(key@, (#[trigger] self.stats@[j]).0@),
            decreases self.stats@.len() - i,
        {
            if u16s_less(key, self.stats[i].0.as_slice()) {
                return i;
            }
            i = i + 1;
        }
        i
    }

    /// The signal for a symbol: scores from the outcomes recorded under its
    /// context prefixes, deeper contexts weighing more.
    pub fn signal_for(&self, symbol: ContextTreeSymbol) -> (r: RouteGovernorSignal)
        requires
            self.wf(),
        ensures
            r == signal_spec(self.stats@, self.max_depth, symbol),
    {
        let atoms = symbol.atoms();
        let md: u8 = if self.max_depth >= 1 { self.max_depth } else { 1 };
        let max_depth: usize = if (md as usize) < atoms.len() { md as usize } else { atoms.len() };
        let mut ws: u32 = 0;
        let mut wf_: u32 = 0;
        let mut wb: u32 = 0;
        let mut wy: u32 = 0;
        let mut wc: u32 = 0;
        let mut wt: u32 = 0;
        let mut depth: usize = 1;
        while depth <= max_depth
            invariant
                1 <= depth <= max_depth + 1,
                max_depth == governor_depth(self.max_depth),
                max_depth <= 8,
                atoms@ == symbol.atoms_spec(),
                atoms@.len() == 8,
                self.wf(),
                (ws, wf_, wb, wy, wc, wt) == weighted_sums(self.stats@, atoms@, (depth - 1) as nat),
            decreases max_depth + 1 - depth,
        {
            let key = crate::wire::copy_prefix_u16(atoms.as_slice(), depth);
            match self.find(key.as_slice()) {
                Some(i) => {
                    let s = self.stats[i].1;
                    let weight = depth as u32;
                    ws = ws.saturating_add(crate::num::saturating_mul_u32(s.successes, weight));
                    wf_ = wf_.saturating_add(crate::num::saturating_mul_u32(s.failures, weight));
                    wb = wb.saturating_add(crate::num::saturating_mul_u32(s.fallbacks, weight));
                    wy = wy.saturating_add(crate::num::saturating_mul_u32(s.sync_failures, weight));
                    wc = wc.saturating_add(crate::num::saturating_mul_u32(s.contradiction_mass, weight));
                    wt = wt.saturating_add(weight);
                },
                None => {},
            }
            depth = depth + 1;
        }
        if wt == 0 {
            return RouteGovernorSignal {
                route_family: symbol.route_family,
                prior_gain: 0,
                failure_penalty: 0,
                suppression_penalty: 0,
                residual_penalty: 0,
                sync_penalty: 0,
            };
        }
        let success = ws / wt;
        let failure = wf_ / wt;
        let fallback = wb / wt;
        let sync = wy / wt;
        let contradiction = wc / wt;
        let gain = crate::num::saturating_mul_u32(success, 10).saturating_sub(
            crate::num::saturating_mul_u32(failure, 2),
        );
        let prior_gain: u32 = if gain <= 96 { gain } else { 96 };
        let fp = crate::num::saturating_mul_u32(failure, 8).saturating_add(
            crate::num::saturating_mul_u32(fallback, 6),
        );
        let failure_penalty: u32 = if fp <= 128 { fp } else { 128 };
        let trouble = failure.saturating_add(fallback).saturating_add(sync);
        let suppression_penalty: u32 = if trouble > success {
            let t6 = crate::num::saturating_mul_u32(trouble, 6);
            if t6 <= 160 { t6 } else { 160 }
        } else {
            0
        };
        let c8 = contradiction / 8;
        let residual_penalty: u32 = if c8 <= 48 { c8 } else { 48 };
        let s8 = crate::num::saturating_mul_u32(sync, 8);
        let sync_penalty: u32 = if s8 <= 48 { s8 } else { 48 };
        RouteGovernorSignal {
            route_family: symbol.route_family,
            prior_gain,
            failure_penalty,
            suppression_penalty,
            residual_penalty,
            sync_penalty,
        }
    }
}

proof fn lemma_lookup_set(s: Seq<(Vec<u16>, ContextTreeNodeStats)>, i: int, kv: Vec<u16>, v: ContextTreeNodeStats)
    requires
        keys_unique(s),
        0 <= i < s.len(),
        s[i].0@ == kv@,
    ensures
        keys_unique(s.update(i, (kv, v))),
        stats_lookup(s.update(i, (kv, v)), kv@) == Some(v),
        forall|k: Seq<u16>| k != kv@ ==> #[trigger] stats_lookup(s.update(i, (kv, v)), k)
            == stats_lookup(s, k),
    decreases s.len(),
{
    let key = kv@;
    let t = s.update(i, (kv, v));
    assert forall|a: int| 0 <= a < t.len() implies (#[trigger] t[a]).0@ == s[a].0@ by {}
    assert forall|a: int, b: int| 0 <= a < b < t.len() implies (#[trigger] t[a]).0@ != (#[trigger] t[b]).0@ by {
        assert(s[a].0@ != s[b].0@);
    }
    if i == 0 {
        assert(t[0] == (kv, v));
        assert(t.drop_first() =~= s.drop_first());
        assert forall|k: Seq<u16>| k != key implies #[trigger] stats_lookup(t, k) == stats_lookup(s, k) by {
            assert(t[0].0@ == key);
            assert(s[0].0@ == key);
        }
    } else {
        assert(s[0].0@ != key) by {
            assert(s[0].0@ != s[i].0@);
        }
        let s1 = s.drop_first();
        assert forall|a: int, b: int| 0 <= a < b < s1.len() implies (#[trigger] s1[a]).0@ != (#[trigger] s1[b]).0@ by {
            assert(s[a + 1].0@ != s[b + 1].0@);
        }
        assert(s1[i - 1] == s[i]);
        lemma_lookup_set(s1, i - 1, kv, v);
        assert(t.drop_first() =~= s1.update(i - 1, (kv, v)));
        assert(t[0] == s[0]);
        assert forall|k: Seq<u16>| k != key implies #[trigger] stats_lookup(t, k) == stats_lookup(s, k) by {
            if s[0].0@ != k {
                assert(stats_lookup(s1.update(i - 1, (kv, v)), k) == stats_lookup(s1, k));
            }
        }
    }
}

proof fn lemma_lookup_insert(s: Seq<(Vec<u16>, ContextTreeNodeStats)>, p: int, key: Vec<u16>, v: ContextTreeNodeStats)
    requires
        keys_unique(s),
        0 <= p <= s.len(),
        stats_lookup(s, key@) is None,
    ensures
        keys_unique(s.insert(p, (key, v))),
        stats_lookup(s.insert(p, (key, v)), key@) == Some(v),
        forall|k: Seq<u16>| k != key@ ==> #[trigger] stats_lookup(s.insert(p, (key, v)), k) == stats_lookup(s, k),
    decreases s.len(),
{
    lemma_lookup_none(s, key@);
    let t = s.insert(p, (key, v));
    assert forall|a: int, b: int| 0 <= a < b < t.len() implies (#[trigger] t[a]).0@ != (#[trigger] t[b]).0@ by {
        if a < p && b < p {
            assert(s[a].0@ != s[b].0@);
        } else if a < p && b == p {
            assert(s[a].0@ != key@);
        } else if a < p {
            assert(s[a].0@ != s[b - 1].0@);
        } else if a == p {
            assert(s[b - 1].0@ != key@);
        } else {
            assert(s[a - 1].0@ != s[b - 1].0@);
        }
    }
    if p == 0 {
        assert(t[0] == (key, v));
        assert(t.drop_first() =~= s);
    } else {
        let s1 = s.drop_first();
        assert forall|a: int, b: int| 0 <= a < b < s1.len() implies (#[trigger] s1[a]).0@ != (#[trigger] s1[b]).0@ by {
            assert(s[a + 1].0@ != s[b + 1].0@);
        }
        assert(s[0].0@ != key@);
        lemma_lookup_insert(s1, p - 1, key, v);
        assert(t.drop_first() =~= s1.insert(p - 1, (key, v)));
        assert(t[0] == s[0]);
        assert forall|k: Seq<u16>| k != key@ implies #[trigger] stats_lookup(t, k) == stats_lookup(s, k) by {
            if s[0].0@ != k {
                assert(stats_lookup(s1.insert(p - 1, (key, v)), k) == stats_lookup(s1, k));
            }
        }
    }
}

proof fn lemma_lookup_none(s: Seq<(Vec<u16>, ContextTreeNodeStats)>, key: Seq<u16>)
    requires
        stats_lookup(s, key) is None,
    ensures
        forall|i: int| 0 <= i < s.len() ==> (#[trigger] s[i]).0@ != key,
    decreases s.len(),
{
    if s.len() > 0 {
        lemma_lookup_none(s.drop_first(), key);
        assert forall|i: int| 0 <= i < s.len() implies (#[trigger] s[i]).0@ != key by {
            if i > 0 {
                assert(s[i] == s.drop_first()[i - 1]);
            }
        }
    }
}

// ---------------------------------------------------------------------------
// Sparse cue index
// ---------------------------------------------------------------------------

/// The character of a decimal digit.
pub open spec fn digit_char(d: nat) -> char {
    (48 + d) as char
}

/// The decimal digits of `n`, most significant first, with no padding.
pub open spec fn decimal(n: nat) -> Seq<char>
    decreases n,
{
    if n < 10 {
        seq![digit_char(n)]
    } else {
        decimal(n / 10).push(digit_char(n % 10))
    }
}

/// Eight fields joined by colons: a name then seven numbers in decimal.
pub open spec fn colon_joined(name: Seq<char>, a: nat, b: nat, c: nat, d: nat, e: nat, f: nat, g: nat) -> Seq<char> {
    name + seq![':'] + decimal(a) + seq![':'] + decimal(b) + seq![':'] + decimal(c) + seq![':']
        + decimal(d) + seq![':'] + decimal(e) + seq![':'] + decimal(f) + seq![':'] + decimal(g)
}

/// std's `format!` with `{}` for each argument, joined by colons: the text
/// of the name, then each integer in decimal (its `Display` form, which has
/// no sign, padding or grouping for unsigned integers).
#[verifier::external_body]
fn format_partition_key(name: &str, a: u8, b: u8, c: u8, d: u8, e: u64, f: u64, g: u64) -> (r: String)
    ensures
        r@ == colon_joined(name@, a as nat, b as nat, c as nat, d as nat, e as nat, f as nat, g as nat),
{
    format!("{}:{}:{}:{}:{}:{}:{}:{}", name, a, b, c, d, e, f, g)
}

/// Where an object is filed in the index: its source kind, cue family and cue.
#[derive(Debug, Clone, Copy, PartialEq, Eq, Default, Structural)]
pub struct SparseIndexKey {
    pub source_kind: SourceKind,
    pub family: CueFamily,
    pub cue: SparseCue,
}

/// The text of a key's partition.
pub open spec fn partition_text(key: SparseIndexKey) -> Seq<char> {
    colon_joined(
        key.source_kind.slug_spec(),
        key.family.plane.code_spec() as nat,
        key.family.route_family.code_spec() as nat,
        key.family.object_kind.code_spec() as nat,
        key.family.precision_band.code_spec() as nat,
        key.cue.family_bits as nat,
        key.cue.length_bucket_bits as nat,
        key.cue.delimiter_bits as nat,
    )
}

impl SparseIndexKey {
    pub fn partition_key(&self) -> (s: String)
        ensures
            s@ == partition_text(*self),
    {
        format_partition_key(
            self.source_kind.slug(),
            self.family.plane.code(),
            self.family.route_family.code(),
            self.family.object_kind.code(),
            self.family.precision_band.code(),
            self.cue.family_bits,
            self.cue.length_bucket_bits,
            self.cue.delimiter_bits,
        )
    }
}

#[derive(Debug, Clone, PartialEq, Eq, Default)]
pub struct SparseIndexEntry {
    pub object_id: String,
    pub source_kind: SourceKind,
    pub object_kind: ObjectKind,
    pub cue: SparseCue,
    pub lifecycle: ObjectLifecycleMeta,
}

/// A completion request: the cue to match, optional filters and a bound.
#[derive(Debug, Clone, PartialEq, Eq)]
pub struct CompletionQuery {
    pub cue: SparseCue,
    pub family_filter: Option<SourceKind>,
    pub max_candidates: u16,
    pub admissible_object_kinds: Vec<ObjectKind>,
}

impl CompletionQuery {
    /// A query that asks for at least one candidate.
    pub fn bounded(
        cue: SparseCue,
        family_filter: Option<SourceKind>,
        max_candidates: u16,
        admissible_object_kinds: Vec<ObjectKind>,
    ) -> (q: Self)
        ensures
            q.cue == cue,
            q.family_filter == family_filter,
            q.max_candidates == (if max_candidates >= 1 { max_candidates } else { 1 }),
            q.admissible_object_kinds@ == admissible_object_kinds@,
    {
        CompletionQuery {
            cue,
            family_filter,
            max_candidates: if max_candidates >= 1 { max_candidates } else { 1 },
            admissible_object_kinds,
        }
    }
}

#[derive(Debug, Clone, PartialEq, Eq)]
pub struct CompletionCandidate {
    pub object_id: String,
    pub source_kind: SourceKind,
    pub object_kind: ObjectKind,
    pub cue_overlap: u32,
    pub lifecycle: ObjectLifecycleMeta,
    pub cue: SparseCue,
}

/// Whether the query lets an entry through its filters (before the overlap test).
pub open spec fn passes_filters(q: CompletionQuery, e: SparseIndexEntry) -> bool {
    &&& (match q.family_filter {
        Some(f) => e.source_kind == f,
        None => true,
    })
    &&& (q.admissible_object_kinds@.len() == 0 || q.admissible_object_kinds@.contains(e.object_kind))
}

/// The candidate an entry gives.
pub open spec fn candidate_of(q: CompletionQuery, e: SparseIndexEntry) -> CompletionCandidate {
    CompletionCandidate {
        object_id: e.object_id,
        source_kind: e.source_kind,
        object_kind: e.object_kind,
        cue_overlap: cue_overlap(e.cue, q.cue) as u32,
        lifecycle: e.lifecycle,
        cue: e.cue,
    }
}

/// The candidates of a run of entries, in order: those that pass the
/// filters and share at least one cue bit with the query.
pub open spec fn entry_candidates(q: CompletionQuery, es: Seq<SparseIndexEntry>) -> Seq<CompletionCandidate>
    decreases es.len(),
{
    if es.len() == 0 {
        Seq::empty()
    } else {
        let rest = entry_candidates(q, es.drop_last());
        let e = es.last();
        if passes_filters(q, e) && cue_overlap(e.cue, q.cue) > 0 {
            rest.push(candidate_of(q, e))
        } else {
            rest
        }
    }
}

/// The candidates of all partitions, partition by partition.
pub open spec fn all_candidates(q: CompletionQuery, parts: Seq<(String, Vec<SparseIndexEntry>)>) -> Seq<CompletionCandidate>
    decreases parts.len(),
{
    if parts.len() == 0 {
        Seq::empty()
    } else {
        all_candidates(q, parts.drop_last()) + entry_candidates(q, parts.last().1@)
    }
}

/// `a` sorts strictly before `b` in byte order.
pub open spec fn bytes_lex_lt(a: Seq<u8>, b: Seq<u8>) -> bool
    decreases a.len(),
{
    if a.len() == 0 {
        b.len() > 0
    } else if b.len() == 0 {
        false
    } else if a[0] != b[0] {
        a[0] < b[0]
    } else {
        bytes_lex_lt(a.drop_first(), b.drop_first())
    }
}

pub(crate) fn bytes_less(a: &[u8], b: &[u8]) -> (r: bool)
    ensures
        r == bytes_lex_lt(a@, b@),
{
    let mut i: usize = 0;
    assert(a@.subrange(0, a@.len() as int) =~= a@);
    assert(b@.subrange(0, b@.len() as int) =~= b@);
    while i < a.len() && i < b.len()
        invariant
            i <= a@.len(),
            i <= b@.len(),
            bytes_lex_lt(a@, b@) == bytes_lex_lt(
                a@.subrange(i as int, a@.len() as int),
                b@.subrange(i as int, b@.len() as int),
            ),
        decreases a@.len() - i,
    {
        let ghost sa = a@.subrange(i as int, a@.len() as int);
        let ghost sb = b@.subrange(i as int, b@.len() as int);
        proof {
            assert(sa[0] == a@[i as int]);
            assert(sb[0] == b@[i as int]);
            assert(sa.drop_first() =~= a@.subrange(i + 1, a@.len() as int));
            assert(sb.drop_first() =~= b@.subrange(i + 1, b@.len() as int));
        }
        if a[i] != b[i] {
            return a[i] < b[i];
        }
        i = i + 1;
    }
    i == a.len() && i < b.len()
}

/// The UTF-8 bytes of a string; std orders strings by these bytes.
pub open spec fn text_bytes(s: String) -> Seq<u8> {
    vstd::utf8::encode_utf8(s@)
}

/// `a` ranks strictly before `b`: more overlap, then more salience, then
/// more support, then the smaller id in byte order.
pub open spec fn candidate_before(a: CompletionCandidate, b: CompletionCandidate) -> bool {
    ||| a.cue_overlap > b.cue_overlap
    ||| a.cue_overlap == b.cue_overlap && a.lifecycle.salience > b.lifecycle.salience
    ||| a.cue_overlap == b.cue_overlap && a.lifecycle.salience == b.lifecycle.salience
        && a.lifecycle.support_count > b.lifecycle.support_count
    ||| a.cue_overlap == b.cue_overlap && a.lifecycle.salience == b.lifecycle.salience
        && a.lifecycle.support_count == b.lifecycle.support_count && bytes_lex_lt(
        text_bytes(a.object_id),
        text_bytes(b.object_id),
    )
}

pub open spec fn candidate_insert_pos(s: Seq<CompletionCandidate>, x: CompletionCandidate) -> nat
    decreases s.len(),
{
    if s.len() == 0 {
        0
    } else if candidate_before(x, s[0]) {
        0
    } else {
        1 + candidate_insert_pos(s.drop_first(), x)
    }
}

/// The candidates ranked, equal ones in their original order.
pub open spec fn candidates_sorted(s: Seq<CompletionCandidate>) -> Seq<CompletionCandidate>
    decreases s.len(),
{
    if s.len() == 0 {
        s
    } else {
        let t = candidates_sorted(s.drop_last());
        t.insert(candidate_insert_pos(t, s.last()) as int, s.last())
    }
}

proof fn lemma_candidate_insert_pos_bound(s: Seq<CompletionCandidate>, x: CompletionCandidate)
    ensures
        candidate_insert_pos(s, x) <= s.len(),
    decreases s.len(),
{
    if s.len() > 0 {
        lemma_candidate_insert_pos_bound(s.drop_first(), x);
    }
}

proof fn lemma_candidates_sorted_len(s: Seq<CompletionCandidate>)
    ensures
        candidates_sorted(s).len() == s.len(),
    decreases s.len(),
{
    if s.len() > 0 {
        lemma_candidates_sorted_len(s.drop_last());
        lemma_candidate_insert_pos_bound(candidates_sorted(s.drop_last()), s.last());
    }
}

fn candidate_goes_before(x: &CompletionCandidate, e: &CompletionCandidate) -> (r: bool)
    ensures
        r == candidate_before(*x, *e),
{
    if x.cue_overlap != e.cue_overlap {
        return x.cue_overlap > e.cue_overlap;
    }
    if x.lifecycle.salience != e.lifecycle.salience {
        return x.lifecycle.salience > e.lifecycle.salience;
    }
    if x.lifecycle.support_count != e.lifecycle.support_count {
        return x.lifecycle.support_count > e.lifecycle.support_count;
    }
    bytes_less(x.object_id.as_str().as_bytes(), e.object_id.as_str().as_bytes())
}

fn candidate_find_pos(v: &Vec<CompletionCandidate>, x: &CompletionCandidate) -> (p: usize)
    ensures
        p == candidate_insert_pos(v@, *x),
{
    let mut i: usize = 0;
    assert(v@.subrange(0, v@.len() as int) =~= v@);
    while i < v.len()
        invariant
            i <= v@.len(),
            candidate_insert_pos(v@, *x) == i + candidate_insert_pos(v@.subrange(i as int, v@.len() as int), *x),
        decreases v@.len() - i,
    {
        proof {
            let rest = v@.subrange(i as int, v@.len() as int);
            assert(rest[0] == v@[i as int]);
            assert(rest.drop_first() =~= v@.subrange(i + 1, v@.len() as int));
        }
        if candidate_goes_before(x, &v[i]) {
            return i;
        }
        i = i + 1;
    }
    proof {
        assert(v@.subrange(i as int, v@.len() as int).len() == 0);
    }
    i
}

fn kinds_contain(kinds: &Vec<ObjectKind>, k: ObjectKind) -> (r: bool)
    ensures
        r == kinds@.contains(k),
{
    let mut i: usize = 0;
    while i < kinds.len()
        invariant
            i <= kinds@.len(),
            forall|j: int| 0 <= j < i ==> kinds@[j] != k,
        decreases kinds@.len() - i,
    {
        if kinds[i] == k {
            return true;
        }
        i = i + 1;
    }
    false
}

/// The index, partitioned by partition key; each key names one partition.
#[derive(Debug, Clone, PartialEq, Eq, Default)]
pub struct SparseIndexTable {
    pub partitions: Vec<(String, Vec<SparseIndexEntry>)>,
}

/// The entries filed under a partition key, if the partition exists.
pub open spec fn partition_lookup(parts: Seq<(String, Vec<SparseIndexEntry>)>, key: Seq<char>) -> Option<Seq<SparseIndexEntry>>
    decreases parts.len(),
{
    if parts.len() == 0 {
        None
    } else if parts[0].0@ == key {
        Some(parts[0].1@)
    } else {
        partition_lookup(parts.drop_first(), key)
    }
}

pub open spec fn partition_keys_unique(parts: Seq<(String, Vec<SparseIndexEntry>)>) -> bool {
    forall|i: int, j: int| 0 <= i < j < parts.len() ==> (#[trigger] parts[i]).0@ != (#[trigger] parts[j]).0@
}

/// The position of the first entry with this object id, if any.
pub open spec fn entry_pos(es: Seq<SparseIndexEntry>, object_id: Seq<char>) -> Option<nat>
    decreases es.len(),
{
    if es.len() == 0 {
        None
    } else if es[0].object_id@ == object_id {
        Some(0)
    } else {
        match entry_pos(es.drop_first(), object_id) {
            Some(p) => Some(p + 1),
            None => None,
        }
    }
}

/// The entries with `e` put in: over the first entry with the same object
/// id, else at the end.
pub open spec fn upsert_entry(es: Seq<SparseIndexEntry>, e: SparseIndexEntry) -> Seq<SparseIndexEntry> {
    match entry_pos(es, e.object_id@) {
        Some(p) => es.update(p as int, e),
        None => es.push(e),
    }
}

proof fn lemma_entry_pos_bound(es: Seq<SparseIndexEntry>, id: Seq<char>)
    ensures
        entry_pos(es, id) matches Some(p) ==> p < es.len() && es[p as int].object_id@ == id,
    decreases es.len(),
{
    if es.len() > 0 {
        lemma_entry_pos_bound(es.drop_first(), id);
    }
}

fn find_entry_pos(es: &Vec<SparseIndexEntry>, id: &String) -> (r: Option<usize>)
    ensures
        match r {
            Some(p) => entry_pos(es@, id@) == Some(p as nat) && p < es@.len(),
            None => entry_pos(es@, id@) is None,
        },
{
    let mut i: usize = 0;
    assert(es@.subrange(0, es@.len() as int) =~= es@);
    while i < es.len()
        invariant
            i <= es@.len(),
            entry_pos(es@, id@) == (match entry_pos(es@.subrange(i as int, es@.len() as int), id@) {
                Some(p) => Some((p + i) as nat),
                None => None::<nat>,
            }),
        decreases es@.len() - i,
    {
        proof {
            let rest = es@.subrange(i as int, es@.len() as int);
            assert(rest[0] == es@[i as int]);
            assert(rest.drop_first() =~= es@.subrange(i + 1, es@.len() as int));
        }
        if es[i].object_id == *id {
            return Some(i);
        }
        i = i + 1;
    }
    None
}

fn find_partition(parts: &Vec<(String, Vec<SparseIndexEntry>)>, key: &String) -> (r: Option<usize>)
    ensures
        match r {
            Some(i) => i < parts@.len() && parts@[i as int].0@ == key@ && partition_lookup(parts@, key@)
                == Some(parts@[i as int].1@),
            None => partition_lookup(parts@, key@) is None,
        },
{
    let mut i: usize = 0;
    assert(parts@.subrange(0, parts@.len() as int) =~= parts@);
    while i < parts.len()
        invariant
            i <= parts@.len(),
            partition_lookup(parts@, key@) == partition_lookup(
                parts@.subrange(i as int, parts@.len() as int),
                key@,
            ),
        decreases parts@.len() - i,
    {
        proof {
            let rest = parts@.subrange(i as int, parts@.len() as int);
            assert(rest[0] == parts@[i as int]);
            assert(rest.drop_first() =~= parts@.subrange(i + 1, parts@.len() as int));
        }
        if parts[i].0 == *key {
            return Some(i);
        }
        i = i + 1;
    }
    None
}

impl SparseIndexTable {
    pub open spec fn wf(&self) -> bool {
        partition_keys_unique(self.partitions@)
    }

    pub fn new() -> (t: Self)
        ensures
            t.wf(),
            t.partitions@.len() == 0,
    {
        SparseIndexTable { partitions: Vec::new() }
    }

    /// Files an entry under its key's partition, over an entry with the same
    /// object id there.
    pub fn insert(&mut self, key: SparseIndexKey, entry: SparseIndexEntry)
        requires
            old(self).wf(),
        ensures
            final(self).wf(),
            partition_lookup(final(self).partitions@, partition_text(key)) == Some(
                upsert_entry(
                    match partition_lookup(old(self).partitions@, partition_text(key)) {
                        Some(es) => es,
                        None => Seq::<SparseIndexEntry>::empty(),
                    },
                    entry,
                ),
            ),
            forall|k: Seq<char>| k != partition_text(key) ==> #[trigger] partition_lookup(
                final(self).partitions@,
                k,
            ) == partition_lookup(old(self).partitions@, k),
    {
        let pk = key.partition_key();
        let ghost before = self.partitions@;
        match find_partition(&self.partitions, &pk) {
            Some(i) => {
                let mut slot = (String::new(), Vec::new());
                std::mem::swap(&mut slot, &mut self.partitions[i]);
                let (n, mut es) = slot;
                let ghost old_es = es@;
                assert(old_es == before[i as int].1@);
                match find_entry_pos(&es, &entry.object_id) {
                    Some(p) => {
                        proof {
                            lemma_entry_pos_bound(old_es, entry.object_id@);
                        }
                        let ghost ge = entry;
                        let ghost gp: nat = match entry_pos(old_es, entry.object_id@) {
                            Some(q) => q,
                            None => 0,
                        };
                        assert(entry_pos(old_es, entry.object_id@) == Some(gp));
                        assert(gp < old_es.len());
                        assert(old_es.len() == es@.len());
                        assert(p as nat == gp);
                        es.set(p, entry);
                        assert(es@ =~= old_es.update(gp as int, ge));
                    },
                    None => {
                        let ghost ge = entry;
                        es.push(entry);
                        assert(es@ == upsert_entry(old_es, ge));
                    },
                }
                let ghost gn = n;
                let ghost ges = es;
                self.partitions.set(i, (n, es));
                proof {
                    assert(self.partitions@ == before.update(i as int, (gn, ges)));
                    lemma_partition_set(before, i as int, gn, ges);
                }
            },
            None => {
                let mut es: Vec<SparseIndexEntry> = Vec::new();
                es.push(entry);
                let p = self.partition_position(&pk);
                let ghost gn = pk;
                let ghost ges = es;
                self.partitions.insert(p, (pk, es));
                proof {
                    assert(ges@ == upsert_entry(Seq::<SparseIndexEntry>::empty(), entry));
                    lemma_partition_insert(before, p as int, gn, ges);
                }
            },
        }
    }

    fn partition_position(&self, key: &String) -> (p: usize)
        ensures
            p <= self.partitions@.len(),
            forall|j: int| 0 <= j < p ==> !bytes_lex_lt(text_bytes(*key), text_bytes(#[trigger] self.partitions@[j].0)),
            p < self.partitions@.len() ==> bytes_lex_lt(text_bytes(*key), text_bytes(self.partitions@[p as int].0)),
    {
        let mut i: usize = 0;
        while i < self.partitions.len()
            invariant
                i <= self.partitions@.len(),
                forall|j: int| 0 <= j < i ==> !bytes_lex_lt(text_bytes(*key), text_bytes(#[trigger] self.partitions@[j].0)),
            decreases self.partitions@.len() - i,
        {
            if bytes_less(key.as_str().as_bytes(), self.partitions[i].0.as_str().as_bytes()) {
                return i;
            }
            i = i + 1;
        }
        i
    }

    /// The candidates for a query: entries that pass its filters and share
    /// cue bits with it, ranked, at most `max_candidates` of them.
    pub fn query(&self, query: &CompletionQuery) -> (r: Vec<CompletionCandidate>)
        ensures
            r@ == candidates_sorted(all_candidates(*query, self.partitions@)).take(
                if candidates_sorted(all_candidates(*query, self.partitions@)).len() < query.max_candidates {
                    candidates_sorted(all_candidates(*query, self.partitions@)).len() as int
                } else {
                    query.max_candidates as int
                },
            ),
    {
        let mut sorted: Vec<CompletionCandidate> = Vec::new();
        let ghost mut collected: Seq<CompletionCandidate> = Seq::empty();
        let mut pi: usize = 0;
        while pi < self.partitions.len()
            invariant
                pi <= self.partitions@.len(),
                collected == all_candidates(*query, self.partitions@.take(pi as int)),
                sorted@ == candidates_sorted(collected),
            decreases self.partitions@.len() - pi,
        {
            proof {
                assert(self.partitions@.take(pi + 1).drop_last() =~= self.partitions@.take(pi as int));
            }
            let entries = &self.partitions[pi].1;
            let ghost base = collected;
            let mut ei: usize = 0;
            while ei < entries.len()
                invariant
                    ei <= entries@.len(),
                    collected == base + entry_candidates(*query, entries@.take(ei as int)),
                    sorted@ == candidates_sorted(collected),
                decreases entries@.len() - ei,
            {
                proof {
                    assert(entries@.take(ei + 1).drop_last() =~= entries@.take(ei as int));
                }
                let entry = &entries[ei];
                let family_ok = match query.family_filter {
                    Some(f) => entry.source_kind == f,
                    None => true,
                };
                let kind_ok = query.admissible_object_kinds.len() == 0 || kinds_contain(
                    &query.admissible_object_kinds,
                    entry.object_kind,
                );
                if family_ok && kind_ok {
                    let overlap = entry.cue.overlap_score(query.cue);
                    if overlap != 0 {
                        let c = CompletionCandidate {
                            object_id: entry.object_id.clone(),
                            source_kind: entry.source_kind,
                            object_kind: entry.object_kind,
                            cue_overlap: overlap,
                            lifecycle: entry.lifecycle,
                            cue: entry.cue,
                        };
                        proof {
                            lemma_candidates_sorted_len(collected);
                            lemma_candidate_insert_pos_bound(sorted@, c);
                        }
                        let p = candidate_find_pos(&sorted, &c);
                        sorted.insert(p, c);
                        proof {
                            assert(collected.push(c).drop_last() =~= collected);
                            collected = collected.push(c);
                            assert(collected =~= base + entry_candidates(*query, entries@.take(ei + 1)));
                        }
                    }
                }
                ei = ei + 1;
            }
            proof {
                assert(entries@.take(ei as int) =~= entries@);
            }
            pi = pi + 1;
        }
        proof {
            assert(self.partitions@.take(pi as int) =~= self.partitions@);
            lemma_candidates_sorted_len(collected);
        }
        sorted.truncate(query.max_candidates as usize);
        sorted
    }
}

proof fn lemma_partition_set(s: Seq<(String, Vec<SparseIndexEntry>)>, i: int, n: String, es: Vec<SparseIndexEntry>)
    requires
        partition_keys_unique(s),
        0 <= i < s.len(),
        s[i].0@ == n@,
    ensures
        partition_keys_unique(s.update(i, (n, es))),
        partition_lookup(s.update(i, (n, es)), n@) == Some(es@),
        forall|k: Seq<char>| k != n@ ==> #[trigger] partition_lookup(s.update(i, (n, es)), k)
            == partition_lookup(s, k),
    decreases s.len(),
{
    let t = s.update(i, (n, es));
    assert forall|a: int| 0 <= a < t.len() implies (#[trigger] t[a]).0@ == s[a].0@ by {}
    assert forall|a: int, b: int| 0 <= a < b < t.len() implies (#[trigger] t[a]).0@ != (#[trigger] t[b]).0@ by {
        assert(s[a].0@ != s[b].0@);
    }
    if i == 0 {
        assert(t.drop_first() =~= s.drop_first());
    } else {
        assert(s[0].0@ != n@) by {
            assert(s[0].0@ != s[i].0@);
        }
        let s1 = s.drop_first();
        assert forall|a: int, b: int| 0 <= a < b < s1.len() implies (#[trigger] s1[a]).0@ != (#[trigger] s1[b]).0@ by {
            assert(s[a + 1].0@ != s[b + 1].0@);
        }
        assert(s1[i - 1] == s[i]);
        lemma_partition_set(s1, i - 1, n, es);
        assert(t.drop_first() =~= s1.update(i - 1, (n, es)));
        assert(t[0] == s[0]);
        assert forall|k: Seq<char>| k != n@ implies #[trigger] partition_lookup(t, k) == partition_lookup(s, k) by {
            if s[0].0@ != k {
                assert(partition_lookup(s1.update(i - 1, (n, es)), k) == partition_lookup(s1, k));
            }
        }
    }
}

proof fn lemma_partition_none(s: Seq<(String, Vec<SparseIndexEntry>)>, key: Seq<char>)
    requires
        partition_lookup(s, key) is None,
    ensures
        forall|i: int| 0 <= i < s.len() ==> (#[trigger] s[i]).0@ != key,
    decreases s.len(),
{
    if s.len() > 0 {
        lemma_partition_none(s.drop_first(), key);
        assert forall|i: int| 0 <= i < s.len() implies (#[trigger] s[i]).0@ != key by {
            if i > 0 {
                assert(s[i] == s.drop_first()[i - 1]);
            }
        }
    }
}

proof fn lemma_partition_insert(s: Seq<(String, Vec<SparseIndexEntry>)>, p: int, n: String, es: Vec<SparseIndexEntry>)
    requires
        partition_keys_unique(s),
        0 <= p <= s.len(),
        partition_lookup(s, n@) is None,
    ensures
        partition_keys_unique(s.insert(p, (n, es))),
        partition_lookup(s.insert(p, (n, es)), n@) == Some(es@),
        forall|k: Seq<char>| k != n@ ==> #[trigger] partition_lookup(s.insert(p, (n, es)), k)
            == partition_lookup(s, k),
    decreases s.len(),
{
    lemma_partition_none(s, n@);
    let t = s.insert(p, (n, es));
    assert forall|a: int, b: int| 0 <= a < b < t.len() implies (#[trigger] t[a]).0@ != (#[trigger] t[b]).0@ by {
        if a < p && b < p {
            assert(s[a].0@ != s[b].0@);
        } else if a < p && b == p {
            assert(s[a].0@ != n@);
        } else if a < p {
            assert(s[a].0@ != s[b - 1].0@);
        } else if a == p {
            assert(s[b - 1].0@ != n@);
        } else {
            assert(s[a - 1].0@ != s[b - 1].0@);
        }
    }
    if p == 0 {
        assert(t[0] == (n, es));
        assert(t.drop_first() =~= s);
    } else {
        let s1 = s.drop_first();
        assert forall|a: int, b: int| 0 <= a < b < s1.len() implies (#[trigger] s1[a]).0@ != (#[trigger] s1[b]).0@ by {
            assert(s[a + 1].0@ != s[b + 1].0@);
        }
        assert(s[0].0@ != n@);
        lemma_partition_insert(s1, p - 1, n, es);
        assert(t.drop_first() =~= s1.insert(p - 1, (n, es)));
        assert(t[0] == s[0]);
        assert forall|k: Seq<char>| k != n@ implies #[trigger] partition_lookup(t, k) == partition_lookup(s, k) by {
            if s[0].0@ != k {
                assert(partition_lookup(s1.insert(p - 1, (n, es)), k) == partition_lookup(s1, k));
            }
        }
    }
}

} // verus!
