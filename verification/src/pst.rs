//! The counting half of a prediction suffix tree over byte tokens: for each
//! context (the tokens just before a position, up to a maximum depth) how
//! often each token followed it, the marginal count of each token, and the
//! number of tokens trained on. Pruning and prediction weigh these counts
//! with real-valued ratios and are done outside this library.

use vstd::prelude::*;
use crate::compress::bytes_equal;

verus! {

/// The default longest context.
pub const DEFAULT_MAX_DEPTH: usize = 8;

/// The table as values: the contexts in the order they were first seen, the
/// 256 token counts of each, the marginal counts, the tokens trained on and
/// the longest context.
pub struct PstCountsView {
    pub contexts: Seq<Seq<u8>>,
    pub counts: Seq<Seq<u64>>,
    pub marginal: Seq<u64>,
    pub total_tokens: u64,
    pub max_depth: usize,
}

/// How often `t` occurs in `s`.
pub open spec fn token_occurrences(s: Seq<u8>, t: u8) -> nat
    decreases s.len(),
{
    if s.len() == 0 {
        0
    } else {
        token_occurrences(s.drop_last(), t) + if s.last() == t { 1nat } else { 0nat }
    }
}

/// Position `i` of `s` counts for context `c` and token `t`: `i` is not the
/// first position, `c` is the `|c|` tokens just before it (at least one, at
/// most `max_depth`), and `t` stands at `i`.
pub open spec fn hit_at(s: Seq<u8>, max_depth: nat, c: Seq<u8>, t: u8, i: nat) -> bool {
    &&& 1 <= i < s.len()
    &&& 1 <= c.len() <= max_depth
    &&& c.len() <= i
    &&& s.subrange(i - c.len(), i as int) == c
    &&& s[i as int] == t
}

/// The positions below `n` that count for context `c` and token `t`.
pub open spec fn context_hits(s: Seq<u8>, max_depth: nat, c: Seq<u8>, t: u8, n: nat) -> nat
    decreases n,
{
    if n == 0 {
        0
    } else {
        context_hits(s, max_depth, c, t, (n - 1) as nat) + if hit_at(s, max_depth, c, t, (n - 1) as nat) {
            1nat
        } else {
            0nat
        }
    }
}

/// The table's shape: a row of 256 counts per context, no context twice,
/// and in every row some token counted.
pub open spec fn shape_ok(v: PstCountsView) -> bool {
    &&& v.counts.len() == v.contexts.len()
    &&& v.marginal.len() == 256
    &&& forall|j: int| 0 <= j < v.counts.len() ==> (#[trigger] v.counts[j]).len() == 256
    &&& forall|i: int, j: int| 0 <= i < j < v.contexts.len() ==> v.contexts[i] != v.contexts[j]
    &&& forall|j: int| 0 <= j < v.counts.len() ==> #[trigger] row_counted(v.counts[j])
}

/// Some token of the row has a count.
pub open spec fn row_counted(r: Seq<u64>) -> bool {
    exists|t: int| 0 <= t < 256 && #[trigger] r[t] > 0
}

/// No count exceeds the number of tokens trained on.
pub open spec fn counts_bounded(v: PstCountsView) -> bool {
    &&& forall|t: int| 0 <= t < 256 ==> #[trigger] v.marginal[t] <= v.total_tokens
    &&& forall|j: int, t: int| 0 <= j < v.counts.len() && 0 <= t < 256 ==> #[trigger] v.counts[j][t] <= v.total_tokens
}

pub open spec fn pst_wf(v: PstCountsView) -> bool {
    shape_ok(v) && counts_bounded(v)
}

/// How often `t` followed context `c`: its row's count, zero where `c` has
/// no row.
pub open spec fn count_of(v: PstCountsView, c: Seq<u8>, t: u8) -> nat {
    if exists|j: int| 0 <= j < v.contexts.len() && v.contexts[j] == c {
        let j = choose|j: int| 0 <= j < v.contexts.len() && v.contexts[j] == c;
        v.counts[j][t as int] as nat
    } else {
        0
    }
}

proof fn lemma_count_at(v: PstCountsView, j: int, t: u8)
    requires
        shape_ok(v),
        0 <= j < v.contexts.len(),
    ensures
        count_of(v, v.contexts[j], t) == v.counts[j][t as int],
{
    let c = v.contexts[j];
    assert(exists|k: int| 0 <= k < v.contexts.len() && v.contexts[k] == c);
    let k = choose|k: int| 0 <= k < v.contexts.len() && v.contexts[k] == c;
    if k < j {
        assert(v.contexts[k] != v.contexts[j]);
    } else if j < k {
        assert(v.contexts[j] != v.contexts[k]);
    }
}

proof fn lemma_count_bounded(v: PstCountsView, c: Seq<u8>, t: u8)
    requires
        pst_wf(v),
    ensures
        count_of(v, c, t) <= v.total_tokens,
{
    if exists|j: int| 0 <= j < v.contexts.len() && v.contexts[j] == c {
        let j = choose|j: int| 0 <= j < v.contexts.len() && v.contexts[j] == c;
        assert(v.counts[j][t as int] <= v.total_tokens);
    }
}

proof fn lemma_occurrences_le(s: Seq<u8>, t: u8)
    ensures
        token_occurrences(s, t) <= s.len(),
    decreases s.len(),
{
    if s.len() > 0 {
        lemma_occurrences_le(s.drop_last(), t);
    }
}

proof fn lemma_hits_le(s: Seq<u8>, max_depth: nat, c: Seq<u8>, t: u8, n: nat)
    ensures
        context_hits(s, max_depth, c, t, n) <= n,
    decreases n,
{
    if n > 0 {
        lemma_hits_le(s, max_depth, c, t, (n - 1) as nat);
    }
}

/// A context has a row exactly when some token followed it: no row is
/// empty and no count is kept outside a row.
pub proof fn lemma_rows_are_counted(v: PstCountsView, c: Seq<u8>)
    requires
        pst_wf(v),
    ensures
        (exists|j: int| 0 <= j < v.contexts.len() && v.contexts[j] == c) <==> (exists|t: u8| #[trigger] count_of(v, c, t) > 0),
{
    if exists|j: int| 0 <= j < v.contexts.len() && v.contexts[j] == c {
        let j = choose|j: int| 0 <= j < v.contexts.len() && v.contexts[j] == c;
        assert(row_counted(v.counts[j]));
        let t = choose|t: int| 0 <= t < 256 && #[trigger] v.counts[j][t] > 0;
        lemma_count_at(v, j, t as u8);
        assert(count_of(v, c, t as u8) > 0);
    }
}

/// No position below 2 counts: the first position never does.
proof fn lemma_no_hits_below(s: Seq<u8>, max_depth: nat, c: Seq<u8>, t: u8, a: nat, b: nat)
    requires
        a <= 1,
        b <= 1,
    ensures
        context_hits(s, max_depth, c, t, a) == context_hits(s, max_depth, c, t, b),
{
    assert(context_hits(s, max_depth, c, t, 0) == 0);
    assert(!hit_at(s, max_depth, c, t, 0));
    assert(context_hits(s, max_depth, c, t, 1) == 0);
}

/// Context counts of a prediction suffix tree.
pub struct PstCounts {
    contexts: Vec<Vec<u8>>,
    counts: Vec<[u64; 256]>,
    marginal: [u64; 256],
    total_tokens: u64,
    max_depth: usize,
}

impl View for PstCounts {
    type V = PstCountsView;

    closed spec fn view(&self) -> PstCountsView {
        PstCountsView {
            contexts: self.contexts@.map_values(|c: Vec<u8>| c@),
            counts: self.counts@.map_values(|r: [u64; 256]| r@),
            marginal: self.marginal@,
            total_tokens: self.total_tokens,
            max_depth: self.max_depth,
        }
    }
}

impl PstCounts {
    /// An empty table whose contexts are at most `max_depth` tokens long.
    pub fn new(max_depth: usize) -> (p: Self)
        ensures
            pst_wf(p@),
            p@.contexts.len() == 0,
            p@.total_tokens == 0,
            p@.max_depth == max_depth,
            forall|t: int| 0 <= t < 256 ==> #[trigger] p@.marginal[t] == 0,
    {
        let p = PstCounts { contexts: Vec::new(), counts: Vec::new(), marginal: [0u64; 256], total_tokens: 0, max_depth };
        assert(p@.contexts.len() == 0);
        p
    }

    /// Adds one to the count of `t` after `ctx`, giving `ctx` a row if it had
    /// none.
    fn bump(&mut self, ctx: Vec<u8>, t: u8)
        requires
            shape_ok(old(self)@),
            count_of(old(self)@, ctx@, t) < u64::MAX,
        ensures
            shape_ok(final(self)@),
            final(self)@.marginal == old(self)@.marginal,
            final(self)@.total_tokens == old(self)@.total_tokens,
            final(self)@.max_depth == old(self)@.max_depth,
            forall|c: Seq<u8>, u: u8| #[trigger] count_of(final(self)@, c, u) == count_of(old(self)@, c, u) + if c
                == ctx@ && u == t {
                1nat
            } else {
                0nat
            },
    {
        let ghost v0 = self@;
        let mut j: usize = 0;
        while j < self.contexts.len()
            invariant
                self@ == v0,
                v0 == old(self)@,
                shape_ok(v0),
                count_of(v0, ctx@, t) < u64::MAX,
                j <= self.contexts@.len(),
                self.contexts@.len() == v0.contexts.len(),
                forall|k: int| 0 <= k < j ==> v0.contexts[k] != ctx@,
            decreases self.contexts@.len() - j,
        {
            assert(self.contexts@[j as int]@ == v0.contexts[j as int]);
            if bytes_equal(&self.contexts[j], &ctx) {
                proof {
                    lemma_count_at(v0, j as int, t);
                }
                let mut row: [u64; 256] = self.counts[j];
                assert(row@ == v0.counts[j as int]);
                let n: u64 = row[t as usize];
                row.set(t as usize, n + 1);
                self.counts.set(j, row);
                let ghost v1 = self@;
                assert(v1.contexts == v0.contexts);
                assert(v1.counts == v0.counts.update(j as int, v0.counts[j as int].update(t as int, (n + 1) as u64)));
                assert(v1.counts[j as int][t as int] > 0);
                assert(row_counted(v1.counts[j as int]));
                proof {
                    assert forall|c: Seq<u8>, u: u8| #[trigger] count_of(v1, c, u) == count_of(v0, c, u) + if c == ctx@
                        && u == t {
                        1nat
                    } else {
                        0nat
                    } by {
                        if exists|k: int| 0 <= k < v0.contexts.len() && v0.contexts[k] == c {
                            let k = choose|k: int| 0 <= k < v0.contexts.len() && v0.contexts[k] == c;
                            lemma_count_at(v0, k, u);
                            lemma_count_at(v1, k, u);
                        }
                    }
                }
                return;
            }
            j = j + 1;
        }
        let mut row: [u64; 256] = [0u64; 256];
        row.set(t as usize, 1);
        self.contexts.push(ctx);
        self.counts.push(row);
        let ghost v1 = self@;
        assert(v1.contexts == v0.contexts.push(ctx@));
        assert(v1.counts == v0.counts.push(row@));
        proof {
            assert(v1.counts[v0.counts.len() as int][t as int] > 0);
            assert(row_counted(v1.counts[v0.counts.len() as int]));
            assert(row@.len() == 256);
            assert forall|j: int| 0 <= j < v1.counts.len() implies (#[trigger] v1.counts[j]).len() == 256 && row_counted(v1.counts[j]) by {
                if j < v0.counts.len() {
                    assert(v1.counts[j] == v0.counts[j]);
                }
            }
            assert forall|i: int, j: int| 0 <= i < j < v1.contexts.len() implies v1.contexts[i] != v1.contexts[j] by {
                if j == v0.contexts.len() {
                    assert(v1.contexts[j] == ctx@);
                    assert(v1.contexts[i] == v0.contexts[i]);
                }
            }
            assert(shape_ok(v1));
            assert forall|c: Seq<u8>, u: u8| #[trigger] count_of(v1, c, u) == count_of(v0, c, u) + if c == ctx@ && u
                == t {
                1nat
            } else {
                0nat
            } by {
                if c == ctx@ {
                    lemma_count_at(v1, v0.contexts.len() as int, u);
                } else if exists|k: int| 0 <= k < v0.contexts.len() && v0.contexts[k] == c {
                    let k = choose|k: int| 0 <= k < v0.contexts.len() && v0.contexts[k] == c;
                    lemma_count_at(v0, k, u);
                    lemma_count_at(v1, k, u);
                } else {
                    assert(!exists|k: int| 0 <= k < v1.contexts.len() && v1.contexts[k] == c);
                }
            }
            assert(v1.counts[v0.counts.len() as int][t as int] > 0);
            assert(row_counted(v1.counts[v0.counts.len() as int]));
        }
    }

    /// Trains on a sequence: each token's marginal count grows by its
    /// occurrences, the token total by the length, and for each position
    /// after the first and each depth up to the maximum (and the position),
    /// the context of that many tokens before the position counts the token
    /// at it once.
    pub fn train(&mut self, sequence: &[u8])
        requires
            pst_wf(old(self)@),
            old(self)@.total_tokens + sequence@.len() <= u64::MAX,
        ensures
            pst_wf(final(self)@),
            final(self)@.total_tokens == old(self)@.total_tokens + sequence@.len(),
            final(self)@.max_depth == old(self)@.max_depth,
            forall|t: u8| #[trigger] final(self)@.marginal[t as int] == old(self)@.marginal[t as int] + token_occurrences(sequence@, t),
            forall|c: Seq<u8>, t: u8| #[trigger] count_of(final(self)@, c, t) == count_of(old(self)@, c, t) + context_hits(
                sequence@,
                old(self)@.max_depth as nat,
                c,
                t,
                sequence@.len(),
            ),
    {
        let ghost v0 = self@;
        let ghost s = sequence@;
        let mut k: usize = 0;
        while k < sequence.len()
            invariant
                v0 == old(self)@,
                pst_wf(v0),
                s == sequence@,
                v0.total_tokens + s.len() <= u64::MAX,
                k <= s.len(),
                self@.contexts == v0.contexts,
                self@.counts == v0.counts,
                self@.total_tokens == v0.total_tokens,
                self@.max_depth == v0.max_depth,
                self@.marginal.len() == 256,
                forall|t: u8| #[trigger] self@.marginal[t as int] == v0.marginal[t as int] + token_occurrences(s.subrange(0, k as int), t),
            decreases s.len() - k,
        {
            let tok: u8 = sequence[k];
            proof {
                assert(s.subrange(0, k as int + 1).drop_last() == s.subrange(0, k as int));
                lemma_occurrences_le(s.subrange(0, k as int), tok);
                assert(v0.marginal[tok as int] <= v0.total_tokens);
            }
            let n: u64 = self.marginal[tok as usize];
            self.marginal.set(tok as usize, n + 1);
            k = k + 1;
        }
        assert(s.subrange(0, s.len() as int) == s);
        self.total_tokens = self.total_tokens + sequence.len() as u64;
        let ghost v1 = self@;
        proof {
            assert forall|t: int| 0 <= t < 256 implies #[trigger] v1.marginal[t] <= v1.total_tokens by {
                lemma_occurrences_le(s, t as u8);
                assert(v1.marginal[(t as u8) as int] == v1.marginal[t]);
            }
        }
        proof {
            assert(v1.contexts == v0.contexts && v1.counts == v0.counts);
            assert forall|c: Seq<u8>, t: u8| #[trigger] count_of(v1, c, t) == count_of(v0, c, t) + context_hits(s, v0.max_depth as nat, c, t, 1) by {
                lemma_no_hits_below(s, v0.max_depth as nat, c, t, 0, 1);
            }
        }
        let md: usize = self.max_depth;
        let mut i: usize = 1;
        while i < sequence.len()
            invariant
                v0 == old(self)@,
                pst_wf(v0),
                s == sequence@,
                1 <= i,
                i <= s.len() || i == 1,
                s.len() <= usize::MAX,
                md == v0.max_depth,
                shape_ok(self@),
                self@.marginal == v1.marginal,
                self@.total_tokens == v1.total_tokens,
                v1.total_tokens == v0.total_tokens + s.len(),
                self@.max_depth == md,
                forall|t: int| 0 <= t < 256 ==> #[trigger] v1.marginal[t] <= v1.total_tokens,
                forall|c: Seq<u8>, t: u8| #[trigger] count_of(self@, c, t) == count_of(v0, c, t) + context_hits(s, md as nat, c, t, i as nat),
            decreases s.len() - i,
        {
            let next: u8 = sequence[i];
            let top: usize = if md < i { md } else { i };
            let mut d: usize = 1;
            while d <= top
                invariant
                    v0 == old(self)@,
                    pst_wf(v0),
                    s == sequence@,
                    1 <= i < s.len(),
                    s.len() <= usize::MAX,
                    v1.total_tokens == v0.total_tokens + s.len(),
                    next == s[i as int],
                    top <= md && top <= i && (top == md || top == i),
                    1 <= d <= top + 1,
                    md == v0.max_depth,
                    shape_ok(self@),
                    self@.marginal == v1.marginal,
                    self@.total_tokens == v1.total_tokens,
                    self@.max_depth == md,
                    forall|c: Seq<u8>, t: u8| #[trigger] count_of(self@, c, t) == count_of(v0, c, t) + context_hits(s, md as nat, c, t, i as nat)
                        + if 1 <= c.len() < d && hit_at(s, md as nat, c, t, i as nat) {
                        1nat
                    } else {
                        0nat
                    },
                decreases top + 1 - d,
            {
                let ctx: Vec<u8> = crate::wire::copy_range(sequence, i - d, i);
                proof {
                    assert(ctx@.len() == d);
                    assert(count_of(self@, ctx@, next) == count_of(v0, ctx@, next) + context_hits(s, md as nat, ctx@, next, i as nat));
                    lemma_count_bounded(v0, ctx@, next);
                    lemma_hits_le(s, md as nat, ctx@, next, i as nat);
                }
                let ghost before = self@;
                self.bump(ctx, next);
                proof {
                    assert forall|c: Seq<u8>, t: u8| #[trigger] count_of(self@, c, t) == count_of(v0, c, t) + context_hits(s, md as nat, c, t, i as nat)
                        + if 1 <= c.len() < d + 1 && hit_at(s, md as nat, c, t, i as nat) {
                        1nat
                    } else {
                        0nat
                    } by {
                        assert(count_of(self@, c, t) == count_of(before, c, t) + if c == ctx@ && t == next { 1nat } else { 0nat });
                        if c.len() == d {
                            if hit_at(s, md as nat, c, t, i as nat) {
                                assert(c == ctx@);
                            }
                            if c == ctx@ && t == next {
                                assert(hit_at(s, md as nat, c, t, i as nat));
                            }
                        }
                    }
                }
                d = d + 1;
            }
            proof {
                assert forall|c: Seq<u8>, t: u8| #[trigger] count_of(self@, c, t) == count_of(v0, c, t) + context_hits(s, md as nat, c, t, (i + 1) as nat) by {
                    assert(context_hits(s, md as nat, c, t, (i + 1) as nat) == context_hits(s, md as nat, c, t, i as nat) + if hit_at(s, md as nat, c, t, i as nat) {
                        1nat
                    } else {
                        0nat
                    });
                }
            }
            i = i + 1;
        }
        proof {
            assert forall|c: Seq<u8>, t: u8| #[trigger] count_of(self@, c, t) == count_of(v0, c, t) + context_hits(s, md as nat, c, t, s.len()) by {
                if s.len() == 0 {
                    lemma_no_hits_below(s, md as nat, c, t, i as nat, s.len());
                }
            }
            let v2 = self@;
            assert forall|j: int, t: int| 0 <= j < v2.counts.len() && 0 <= t < 256 implies #[trigger] v2.counts[j][t] <= v2.total_tokens by {
                lemma_count_at(v2, j, t as u8);
                lemma_count_bounded(v0, v2.contexts[j], t as u8);
                lemma_hits_le(s, md as nat, v2.contexts[j], t as u8, s.len());
            }
        }
    }

    /// The number of contexts with a row.
    pub fn node_count(&self) -> (n: usize)
        ensures
            n == self@.contexts.len(),
    {
        self.contexts.len()
    }

    /// The number of tokens trained on.
    pub fn total_tokens(&self) -> (n: u64)
        ensures
            n == self@.total_tokens,
    {
        self.total_tokens
    }

    /// The longest context counted.
    pub fn max_depth(&self) -> (n: usize)
        ensures
            n == self@.max_depth,
    {
        self.max_depth
    }

    /// How often `t` occurred in what was trained on.
    pub fn marginal_count(&self, t: u8) -> (n: u64)
        requires
            pst_wf(self@),
        ensures
            n == self@.marginal[t as int],
    {
        self.marginal[t as usize]
    }

    /// How often `t` followed `context`.
    pub fn context_count(&self, context: &[u8], t: u8) -> (n: u64)
        requires
            pst_wf(self@),
        ensures
            n == count_of(self@, context@, t),
    {
        let mut j: usize = 0;
        while j < self.contexts.len()
            invariant
                pst_wf(self@),
                j <= self@.contexts.len(),
                forall|k: int| 0 <= k < j ==> self@.contexts[k] != context@,
            decreases self@.contexts.len() - j,
        {
            assert(self.contexts@[j as int]@ == self@.contexts[j as int]);
            if bytes_equal(&self.contexts[j], context) {
                proof {
                    lemma_count_at(self@, j as int, t);
                }
                let row: [u64; 256] = self.counts[j];
                assert(row@ == self@.counts[j as int]);
                return row[t as usize];
            }
            j = j + 1;
        }
        0
    }

    /// The context of row `j`.
    pub fn context_at(&self, j: usize) -> (c: Vec<u8>)
        requires
            j < self@.contexts.len(),
        ensures
            c@ == self@.contexts[j as int],
    {
        assert(self.contexts@[j as int]@ == self@.contexts[j as int]);
        crate::wire::copy_range(&self.contexts[j], 0, self.contexts[j].len())
    }

    /// The 256 counts of row `j`.
    pub fn row_at(&self, j: usize) -> (r: [u64; 256])
        requires
            pst_wf(self@),
            j < self@.contexts.len(),
        ensures
            r@ == self@.counts[j as int],
    {
        assert(self.counts@.len() == self@.counts.len());
        let r: [u64; 256] = self.counts[j];
        assert(r@ == self@.counts[j as int]);
        r
    }

    /// Drops row `j`: its context then counts nothing, every other context
    /// keeps its counts.
    pub fn remove_row(&mut self, j: usize)
        requires
            pst_wf(old(self)@),
            j < old(self)@.contexts.len(),
        ensures
            pst_wf(final(self)@),
            final(self)@.contexts == old(self)@.contexts.remove(j as int),
            final(self)@.counts == old(self)@.counts.remove(j as int),
            final(self)@.marginal == old(self)@.marginal,
            final(self)@.total_tokens == old(self)@.total_tokens,
            final(self)@.max_depth == old(self)@.max_depth,
            forall|c: Seq<u8>, t: u8| #[trigger] count_of(final(self)@, c, t) == if c == old(self)@.contexts[j as int] {
                0
            } else {
                count_of(old(self)@, c, t)
            },
    {
        let ghost v0 = self@;
        self.contexts.remove(j);
        self.counts.remove(j);
        let ghost v1 = self@;
        assert(v1.contexts =~= v0.contexts.remove(j as int));
        assert(v1.counts =~= v0.counts.remove(j as int));
        proof {
            assert forall|a: int, b: int| 0 <= a < b < v1.contexts.len() implies v1.contexts[a] != v1.contexts[b] by {
                let a0 = if a < j { a } else { a + 1 };
                let b0 = if b < j { b } else { b + 1 };
                assert(v1.contexts[a] == v0.contexts[a0] && v1.contexts[b] == v0.contexts[b0]);
            }
            assert forall|k: int| 0 <= k < v1.counts.len() implies (#[trigger] v1.counts[k]).len() == 256 && row_counted(v1.counts[k]) by {
                let k0 = if k < j { k } else { k + 1 };
                assert(v1.counts[k] == v0.counts[k0]);
            }
            assert forall|k: int, t: int| 0 <= k < v1.counts.len() && 0 <= t < 256 implies #[trigger] v1.counts[k][t] <= v1.total_tokens by {
                let k0 = if k < j { k } else { k + 1 };
                assert(v1.counts[k] == v0.counts[k0]);
            }
            assert(shape_ok(v1));
            assert forall|c: Seq<u8>, t: u8| #[trigger] count_of(v1, c, t) == if c == v0.contexts[j as int] {
                0
            } else {
                count_of(v0, c, t)
            } by {
                if exists|k: int| 0 <= k < v1.contexts.len() && v1.contexts[k] == c {
                    let k = choose|k: int| 0 <= k < v1.contexts.len() && v1.contexts[k] == c;
                    let k0 = if k < j { k } else { k + 1 };
                    assert(v1.contexts[k] == v0.contexts[k0]);
                    assert(v1.counts[k] == v0.counts[k0]);
                    lemma_count_at(v1, k, t);
                    lemma_count_at(v0, k0, t);
                    if k0 < j {
                        assert(v0.contexts[k0] != v0.contexts[j as int]);
                    } else {
                        assert(v0.contexts[j as int] != v0.contexts[k0]);
                    }
                } else if c != v0.contexts[j as int] {
                    if exists|k: int| 0 <= k < v0.contexts.len() && v0.contexts[k] == c {
                        let k = choose|k: int| 0 <= k < v0.contexts.len() && v0.contexts[k] == c;
                        let k1 = if k < j { k } else { k - 1 };
                        assert(v1.contexts[k1] == v0.contexts[k]);
                    }
                }
            }
        }
    }
}

} // verus!
