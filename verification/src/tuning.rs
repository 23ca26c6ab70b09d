//! Compression tuning: per-strategy performance feedback, dictionary
//! context reuse, a CPU-time budget, and the length-prefixed framing used to
//! batch several payloads under one AEAD operation.

use vstd::prelude::*;
use crate::chpmt::DictionaryId;
use crate::compress::{CompressError, CompressionStrategy, lemma_strategy_rules, select_strategy, strategy_for};
use crate::source::SourceKind;
use crate::wire::{push_u16_le, push_u32_le, read_u16_le, read_u32_le, u16_at, u16_le, u32_at, u32_le};

verus! {

/// The smallest batch for which columnar encoding is considered.
pub const MIN_COLUMNAR_BATCH_SIZE: usize = 4;

// ---------------------------------------------------------------------------
// Strategy performance feedback
// ---------------------------------------------------------------------------

/// The slot in which a strategy's statistics are kept; strategies of one
/// kind share a slot whatever their parameters.
pub open spec fn strategy_slot(s: CompressionStrategy) -> int {
    match s {
        CompressionStrategy::Passthrough => 0,
        CompressionStrategy::ZstdDict { .. } => 1,
        CompressionStrategy::ZstdRaw => 2,
        CompressionStrategy::Delta { .. } => 3,
        CompressionStrategy::Template { .. } => 4,
        CompressionStrategy::Columnar => 5,
    }
}

fn slot_of(s: &CompressionStrategy) -> (i: usize)
    ensures
        i == strategy_slot(*s),
{
    match s {
        CompressionStrategy::Passthrough => 0,
        CompressionStrategy::ZstdDict { .. } => 1,
        CompressionStrategy::ZstdRaw => 2,
        CompressionStrategy::Delta { .. } => 3,
        CompressionStrategy::Template { .. } => 4,
        CompressionStrategy::Columnar => 5,
    }
}

/// Totals of one strategy: bytes in, bytes out, and how many results.
#[derive(Debug, Clone, Copy, PartialEq, Eq, Default, Structural)]
pub struct StrategyStats {
    pub total_original: usize,
    pub total_compressed: usize,
    pub count: usize,
}

/// Observed compression results, one slot per kind of strategy.
#[derive(Debug, Clone)]
pub struct StrategyPerformanceTracker {
    stats: Vec<StrategyStats>,
}

/// A strategy's average ratio as a fraction `(compressed, original)`, when
/// it has results with some original bytes.
pub open spec fn ratio_of(s: StrategyStats) -> Option<(usize, usize)> {
    if s.total_original == 0 || s.count == 0 {
        None
    } else {
        Some((s.total_compressed, s.total_original))
    }
}

/// The strategy chosen with feedback: a batch of enough large items goes
/// columnar unless columnar has done badly (ratio at least 0.8), in which
/// case a dictionary that has done better is used if one is available; an
/// update with a previous version is a delta unless deltas have not saved
/// anything; otherwise the plain choice.
pub open spec fn feedback_choice(
    columnar: Option<(usize, usize)>,
    dict: Option<(usize, usize)>,
    delta: Option<(usize, usize)>,
    source_kind: SourceKind,
    len: nat,
    is_update: bool,
    has_previous_version: bool,
    available_dict: Option<DictionaryId>,
    matching_template: Option<u64>,
    previous_item_id: Option<u64>,
    batch_size: nat,
) -> CompressionStrategy {
    let base = if is_update && has_previous_version && previous_item_id is Some && (match delta {
        Some((c, o)) => c < o,
        None => true,
    }) {
        CompressionStrategy::Delta { base_item_id: previous_item_id->0 }
    } else {
        strategy_for(
            source_kind,
            len,
            is_update,
            has_previous_version,
            available_dict,
            matching_template,
            previous_item_id,
        )
    };
    if batch_size >= 4 && len >= 128 {
        match columnar {
            None => CompressionStrategy::Columnar,
            Some((cc, co)) => if 5 * cc < 4 * co {
                CompressionStrategy::Columnar
            } else {
                match (dict, available_dict) {
                    (Some((dc, dor)), Some(id)) => if dc * co < cc * dor {
                        CompressionStrategy::ZstdDict { dict_id: id.0 }
                    } else {
                        base
                    },
                    _ => base,
                }
            },
        }
    } else {
        base
    }
}

/// How results are filed and read back: strategies of the same kind share
/// a slot and different kinds never do, whatever their parameters; columnar,
/// dictionary and delta results are kept in the slots the choice with
/// feedback reads (5, 1 and 3). A slot reports a ratio exactly when it has
/// results with some original bytes, and the ratio is its compressed bytes
/// over its original bytes.
pub proof fn lemma_tracker_rules(a: CompressionStrategy, b: CompressionStrategy, st: StrategyStats)
    ensures
        (strategy_slot(a) == strategy_slot(b)) == ((a is Passthrough && b is Passthrough) || (a is ZstdDict
            && b is ZstdDict) || (a is ZstdRaw && b is ZstdRaw) || (a is Delta && b is Delta) || (a is Template
            && b is Template) || (a is Columnar && b is Columnar)),
        0 <= strategy_slot(a) < 6,
        a is Columnar ==> strategy_slot(a) == 5,
        a is ZstdDict ==> strategy_slot(a) == 1,
        a is Delta ==> strategy_slot(a) == 3,
        (ratio_of(st) is Some) == (st.total_original > 0 && st.count > 0),
        ratio_of(st) is Some ==> ratio_of(st)->0 == (st.total_compressed, st.total_original),
{
}

/// What the choice with feedback guarantees. A batch of at least four
/// items of at least 128 bytes goes columnar when columnar has no history or
/// has kept its output under 80% of the input; when columnar has done worse
/// and a dictionary is available whose history is better, the dictionary is
/// used. An update with its previous version and a base id is a delta when
/// deltas have no history or have saved bytes, unless the batch rule chose.
/// Otherwise the plain choice (`select_strategy`) stands. Columnar is never
/// chosen outside a batch, a dictionary only when one is available, and a
/// delta only for an update with a base id.
pub proof fn lemma_feedback_rules(
    columnar: Option<(usize, usize)>,
    dict: Option<(usize, usize)>,
    delta: Option<(usize, usize)>,
    source_kind: SourceKind,
    len: nat,
    is_update: bool,
    has_previous_version: bool,
    available_dict: Option<DictionaryId>,
    matching_template: Option<u64>,
    previous_item_id: Option<u64>,
    batch_size: nat,
)
    ensures
        ({
            let s = feedback_choice(
                columnar,
                dict,
                delta,
                source_kind,
                len,
                is_update,
                has_previous_version,
                available_dict,
                matching_template,
                previous_item_id,
                batch_size,
            );
            let plain = strategy_for(
                source_kind,
                len,
                is_update,
                has_previous_version,
                available_dict,
                matching_template,
                previous_item_id,
            );
            let batch = batch_size >= 4 && len >= 128;
            let columnar_good = match columnar {
                None => true,
                Some((c, o)) => c * 5 < o * 4,
            };
            let delta_ready = is_update && has_previous_version && previous_item_id is Some;
            let delta_good = match delta {
                None => true,
                Some((c, o)) => c < o,
            };
            let dict_number: u64 = match available_dict {
                Some(d) => d.0,
                None => 0,
            };
            &&& (batch && columnar_good ==> s == CompressionStrategy::Columnar)
            &&& (batch && !columnar_good && available_dict is Some && (match (columnar, dict) {
                (Some((cc, co)), Some((dc, dor))) => dc * co < cc * dor,
                _ => false,
            }) ==> s == CompressionStrategy::ZstdDict { dict_id: dict_number })
            &&& (!batch && delta_ready && delta_good ==> s == CompressionStrategy::Delta {
                base_item_id: previous_item_id->0,
            })
            &&& (!batch && !(delta_ready && delta_good) ==> s == plain)
            &&& (batch && !columnar_good && !(available_dict is Some && (match (columnar, dict) {
                (Some((cc, co)), Some((dc, dor))) => dc * co < cc * dor,
                _ => false,
            })) ==> s == if delta_ready && delta_good {
                CompressionStrategy::Delta { base_item_id: previous_item_id->0 }
            } else {
                plain
            })
            &&& (s == CompressionStrategy::Columnar ==> batch && columnar_good)
            &&& (s is ZstdDict ==> available_dict is Some && s->ZstdDict_dict_id == dict_number)
            &&& (s is Delta ==> delta_ready && s->Delta_base_item_id == previous_item_id->0)
        }),
{
    lemma_strategy_rules(
        source_kind,
        len,
        is_update,
        has_previous_version,
        available_dict,
        matching_template,
        previous_item_id,
    );
}

impl StrategyPerformanceTracker {
    pub closed spec fn slot(&self, i: int) -> StrategyStats {
        self.stats@[i]
    }

    pub closed spec fn wf(&self) -> bool {
        self.stats@.len() == 6
    }

    pub fn new() -> (t: Self)
        ensures
            t.wf(),
            forall|i: int| 0 <= i < 6 ==> #[trigger] t.slot(i) == StrategyStats::default_spec(),
    {
        let mut stats: Vec<StrategyStats> = Vec::new();
        let mut i: usize = 0;
        while i < 6
            invariant
                i <= 6,
                stats@.len() == i,
                forall|j: int| 0 <= j < i ==> #[trigger] stats@[j] == StrategyStats::default_spec(),
            decreases 6 - i,
        {
            stats.push(StrategyStats { total_original: 0, total_compressed: 0, count: 0 });
            i = i + 1;
        }
        StrategyPerformanceTracker { stats }
    }

    /// Adds one result of a strategy to its totals.
    pub fn record(&mut self, strategy: &CompressionStrategy, original_size: usize, compressed_size: usize)
        requires
            old(self).wf(),
            old(self).slot(strategy_slot(*strategy)).total_original + original_size <= usize::MAX,
            old(self).slot(strategy_slot(*strategy)).total_compressed + compressed_size <= usize::MAX,
            old(self).slot(strategy_slot(*strategy)).count < usize::MAX,
        ensures
            final(self).wf(),
            final(self).slot(strategy_slot(*strategy)) == (StrategyStats {
                total_original: (old(self).slot(strategy_slot(*strategy)).total_original + original_size) as usize,
                total_compressed: (old(self).slot(strategy_slot(*strategy)).total_compressed
                    + compressed_size) as usize,
                count: (old(self).slot(strategy_slot(*strategy)).count + 1) as usize,
            }),
            forall|i: int| 0 <= i < 6 && i != strategy_slot(*strategy) ==> #[trigger] final(self).slot(i)
                == old(self).slot(i),
    {
        let k = slot_of(strategy);
        let s = self.stats[k];
        self.stats.set(
            k,
            StrategyStats {
                total_original: s.total_original + original_size,
                total_compressed: s.total_compressed + compressed_size,
                count: s.count + 1,
            },
        );
    }

    /// The average ratio of a strategy as `(compressed, original)` byte
    /// totals, when it has results with some original bytes.
    pub fn ratio_parts(&self, strategy: &CompressionStrategy) -> (r: Option<(usize, usize)>)
        requires
            self.wf(),
        ensures
            r == ratio_of(self.slot(strategy_slot(*strategy))),
    {
        let s = self.stats[slot_of(strategy)];
        if s.total_original == 0 || s.count == 0 {
            None
        } else {
            Some((s.total_compressed, s.total_original))
        }
    }

    /// How many results were recorded for the strategy's kind.
    pub fn sample_count(&self, strategy: &CompressionStrategy) -> (n: usize)
        requires
            self.wf(),
        ensures
            n == self.slot(strategy_slot(*strategy)).count,
    {
        self.stats[slot_of(strategy)].count
    }

    /// Chooses a strategy using the observed ratios; see `feedback_choice`.
    pub fn select_strategy_with_feedback(
        &self,
        source_kind: SourceKind,
        data: &[u8],
        is_update: bool,
        has_previous_version: bool,
        available_dict: Option<DictionaryId>,
        matching_template: Option<u64>,
        previous_item_id: Option<u64>,
        batch_size: usize,
    ) -> (s: CompressionStrategy)
        requires
            self.wf(),
        ensures
            s == feedback_choice(
                ratio_of(self.slot(5)),
                ratio_of(self.slot(1)),
                ratio_of(self.slot(3)),
                source_kind,
                data@.len(),
                is_update,
                has_previous_version,
                available_dict,
                matching_template,
                previous_item_id,
                batch_size as nat,
            ),
    {
        if batch_size >= MIN_COLUMNAR_BATCH_SIZE && data.len() >= 128 {
            let columnar = self.ratio_parts(&CompressionStrategy::Columnar);
            let dict = self.ratio_parts(&CompressionStrategy::ZstdDict { dict_id: 0 });
            match columnar {
                None => {
                    return CompressionStrategy::Columnar;
                },
                Some((cc, co)) => {
                    if (cc as u128) * 5 < (co as u128) * 4 {
                        return CompressionStrategy::Columnar;
                    }
                    match (dict, available_dict) {
                        (Some((dc, dor)), Some(id)) => {
                            assert((dc as u128) * (co as u128) <= u128::MAX) by (nonlinear_arith)
                                requires
                                    dc <= usize::MAX,
                                    co <= usize::MAX,
                                    usize::MAX <= u64::MAX,
                            ;
                            assert((cc as u128) * (dor as u128) <= u128::MAX) by (nonlinear_arith)
                                requires
                                    cc <= usize::MAX,
                                    dor <= usize::MAX,
                                    usize::MAX <= u64::MAX,
                            ;
                            if (dc as u128) * (co as u128) < (cc as u128) * (dor as u128) {
                                return CompressionStrategy::ZstdDict { dict_id: id.0 };
                            }
                        },
                        _ => {},
                    }
                },
            }
        }
        if is_update && has_previous_version {
            match previous_item_id {
                Some(previous_id) => {
                    let delta = self.ratio_parts(&CompressionStrategy::Delta { base_item_id: 0 });
                    let effective = match delta {
                        Some((c, o)) => c < o,
                        None => true,
                    };
                    if effective {
                        return CompressionStrategy::Delta { base_item_id: previous_id };
                    }
                },
                None => {},
            }
        }
        select_strategy(
            source_kind,
            data,
            is_update,
            has_previous_version,
            available_dict,
            matching_template,
            previous_item_id,
        )
    }
}

impl StrategyStats {
    pub open spec fn default_spec() -> StrategyStats {
        StrategyStats { total_original: 0, total_compressed: 0, count: 0 }
    }
}

// ---------------------------------------------------------------------------
// Dictionary context reuse
// ---------------------------------------------------------------------------

/// Counts how often consecutive operations reuse the same dictionary, which
/// is when a cached zstd context can be kept.
#[derive(Debug)]
pub struct CompressorCache {
    last_compress_dict_id: Option<u64>,
    last_decompress_dict_id: Option<u64>,
    compress_dict_hits: usize,
    compress_dict_misses: usize,
    decompress_dict_hits: usize,
    decompress_dict_misses: usize,
    context_saves: usize,
}

/// The cache's counters as a view: last dictionary for compression and for
/// decompression, then hits and misses of each, then context saves.
pub struct CacheView {
    pub last_compress: Option<u64>,
    pub last_decompress: Option<u64>,
    pub compress_hits: nat,
    pub compress_misses: nat,
    pub decompress_hits: nat,
    pub decompress_misses: nat,
    pub context_saves: nat,
}

impl CompressorCache {
    pub closed spec fn view_of(&self) -> CacheView {
        CacheView {
            last_compress: self.last_compress_dict_id,
            last_decompress: self.last_decompress_dict_id,
            compress_hits: self.compress_dict_hits as nat,
            compress_misses: self.compress_dict_misses as nat,
            decompress_hits: self.decompress_dict_hits as nat,
            decompress_misses: self.decompress_dict_misses as nat,
            context_saves: self.context_saves as nat,
        }
    }

    pub fn new() -> (c: Self)
        ensures
            c.view_of() == (CacheView {
                last_compress: None,
                last_decompress: None,
                compress_hits: 0,
                compress_misses: 0,
                decompress_hits: 0,
                decompress_misses: 0,
                context_saves: 0,
            }),
    {
        CompressorCache {
            last_compress_dict_id: None,
            last_decompress_dict_id: None,
            compress_dict_hits: 0,
            compress_dict_misses: 0,
            decompress_dict_hits: 0,
            decompress_dict_misses: 0,
            context_saves: 0,
        }
    }

    /// Records a compression with a dictionary (or none); a hit when it is
    /// the same dictionary as the last compression's.
    pub fn record_compress(&mut self, dict_id: Option<u64>) -> (hit: bool)
        requires
            old(self).view_of().compress_hits < usize::MAX,
            old(self).view_of().compress_misses < usize::MAX,
            old(self).view_of().context_saves < usize::MAX,
        ensures
            hit == (old(self).view_of().last_compress is Some && dict_id == old(self).view_of().last_compress),
            hit ==> final(self).view_of() == (CacheView {
                compress_hits: old(self).view_of().compress_hits + 1,
                context_saves: old(self).view_of().context_saves + 1,
                ..old(self).view_of()
            }),
            !hit ==> final(self).view_of() == (CacheView {
                compress_misses: old(self).view_of().compress_misses + 1,
                last_compress: dict_id,
                ..old(self).view_of()
            }),
    {
        match (self.last_compress_dict_id, dict_id) {
            (Some(last), Some(current)) => {
                if last == current {
                    self.compress_dict_hits = self.compress_dict_hits + 1;
                    self.context_saves = self.context_saves + 1;
                    return true;
                }
            },
            _ => {},
        }
        self.compress_dict_misses = self.compress_dict_misses + 1;
        self.last_compress_dict_id = dict_id;
        false
    }

    /// Records a decompression with a dictionary (or none); a hit when it is
    /// the same dictionary as the last decompression's.
    pub fn record_decompress(&mut self, dict_id: Option<u64>) -> (hit: bool)
        requires
            old(self).view_of().decompress_hits < usize::MAX,
            old(self).view_of().decompress_misses < usize::MAX,
            old(self).view_of().context_saves < usize::MAX,
        ensures
            hit == (old(self).view_of().last_decompress is Some && dict_id == old(self).view_of().last_decompress),
            hit ==> final(self).view_of() == (CacheView {
                decompress_hits: old(self).view_of().decompress_hits + 1,
                context_saves: old(self).view_of().context_saves + 1,
                ..old(self).view_of()
            }),
            !hit ==> final(self).view_of() == (CacheView {
                decompress_misses: old(self).view_of().decompress_misses + 1,
                last_decompress: dict_id,
                ..old(self).view_of()
            }),
    {
        match (self.last_decompress_dict_id, dict_id) {
            (Some(last), Some(current)) => {
                if last == current {
                    self.decompress_dict_hits = self.decompress_dict_hits + 1;
                    self.context_saves = self.context_saves + 1;
                    return true;
                }
            },
            _ => {},
        }
        self.decompress_dict_misses = self.decompress_dict_misses + 1;
        self.last_decompress_dict_id = dict_id;
        false
    }

    /// Hits and misses over both directions, `(hits, misses)`.
    pub fn hit_totals(&self) -> (r: (usize, usize))
        requires
            self.view_of().compress_hits + self.view_of().decompress_hits <= usize::MAX,
            self.view_of().compress_misses + self.view_of().decompress_misses <= usize::MAX,
        ensures
            r.0 == self.view_of().compress_hits + self.view_of().decompress_hits,
            r.1 == self.view_of().compress_misses + self.view_of().decompress_misses,
    {
        (self.compress_dict_hits + self.decompress_dict_hits, self.compress_dict_misses + self.decompress_dict_misses)
    }

    /// Hits and misses over both directions, or `None` when a sum does not
    /// fit in a `usize`.
    pub fn checked_hit_totals(&self) -> (r: Option<(usize, usize)>)
        ensures
            match r {
                Some(t) => t.0 == self.view_of().compress_hits + self.view_of().decompress_hits
                    && t.1 == self.view_of().compress_misses + self.view_of().decompress_misses,
                None => self.view_of().compress_hits + self.view_of().decompress_hits > usize::MAX
                    || self.view_of().compress_misses + self.view_of().decompress_misses > usize::MAX,
            },
    {
        match self.compress_dict_hits.checked_add(self.decompress_dict_hits) {
            Some(h) => match self.compress_dict_misses.checked_add(self.decompress_dict_misses) {
                Some(m) => Some((h, m)),
                None => None,
            },
            None => None,
        }
    }

    pub fn context_saves(&self) -> (n: usize)
        ensures
            n == self.view_of().context_saves,
    {
        self.context_saves
    }
}

// ---------------------------------------------------------------------------
// CPU budget
// ---------------------------------------------------------------------------

/// Compression time against a budget of nanoseconds per byte.
#[derive(Debug, Clone)]
pub struct CompressionBudget {
    max_ns_per_byte: u64,
    total_ns: u64,
    total_bytes: usize,
    budget_exceeded_count: usize,
}

impl CompressionBudget {
    pub closed spec fn max_rate(&self) -> u64 {
        self.max_ns_per_byte
    }

    pub closed spec fn spent_ns(&self) -> u64 {
        self.total_ns
    }

    pub closed spec fn spent_bytes(&self) -> usize {
        self.total_bytes
    }

    pub closed spec fn exceeded(&self) -> usize {
        self.budget_exceeded_count
    }

    pub fn new(max_ns_per_byte: u64) -> (b: Self)
        ensures
            b.max_rate() == max_ns_per_byte,
            b.spent_ns() == 0,
            b.spent_bytes() == 0,
            b.exceeded() == 0,
    {
        CompressionBudget { max_ns_per_byte, total_ns: 0, total_bytes: 0, budget_exceeded_count: 0 }
    }

    /// Adds one compression's time; counts it as over budget when it took
    /// more than the budget for its size.
    pub fn record(&mut self, data_len: usize, elapsed_ns: u64)
        requires
            old(self).spent_ns() + elapsed_ns <= u64::MAX,
            old(self).spent_bytes() + data_len <= usize::MAX,
            data_len * old(self).max_rate() <= u64::MAX,
            old(self).exceeded() < usize::MAX,
        ensures
            final(self).max_rate() == old(self).max_rate(),
            final(self).spent_ns() == old(self).spent_ns() + elapsed_ns,
            final(self).spent_bytes() == old(self).spent_bytes() + data_len,
            final(self).exceeded() == old(self).exceeded() + (if data_len > 0 && elapsed_ns > data_len
                * old(self).max_rate() {
                1int
            } else {
                0int
            }),
    {
        self.total_ns = self.total_ns + elapsed_ns;
        self.total_bytes = self.total_bytes + data_len;
        if data_len > 0 && elapsed_ns > (data_len as u64) * self.max_ns_per_byte {
            self.budget_exceeded_count = self.budget_exceeded_count + 1;
        }
    }

    /// Whether the average time per byte so far is within the budget.
    pub fn within_budget(&self) -> (b: bool)
        ensures
            b == (self.spent_bytes() == 0 || self.spent_ns() / (self.spent_bytes() as u64) <= self.max_rate()),
    {
        if self.total_bytes == 0 {
            return true;
        }
        self.total_ns / (self.total_bytes as u64) <= self.max_ns_per_byte
    }

    /// Whether data of this size, at the average rate so far, would be
    /// within the budget.
    pub fn within_budget_for_size(&self, data_len: usize) -> (b: bool)
        requires
            data_len * self.max_rate() <= u64::MAX,
            self.spent_bytes() > 0 ==> data_len * (self.spent_ns() / (self.spent_bytes() as u64)) <= u64::MAX,
        ensures
            b == (data_len == 0 || self.spent_bytes() == 0 || data_len * (self.spent_ns() / (
            self.spent_bytes() as u64)) <= data_len * self.max_rate()),
    {
        if data_len == 0 {
            return true;
        }
        if self.total_bytes == 0 {
            return true;
        }
        let avg = self.total_ns / (self.total_bytes as u64);
        let estimated = (data_len as u64) * avg;
        let budget = (data_len as u64) * self.max_ns_per_byte;
        estimated <= budget
    }

    /// Total nanoseconds and bytes so far, `(ns, bytes)`.
    pub fn totals(&self) -> (r: (u64, usize))
        ensures
            r == (self.spent_ns(), self.spent_bytes()),
    {
        (self.total_ns, self.total_bytes)
    }

    pub fn budget_exceeded_count(&self) -> (n: usize)
        ensures
            n == self.exceeded(),
    {
        self.budget_exceeded_count
    }

    /// Clears the totals and the count; the budget stays.
    pub fn reset(&mut self)
        ensures
            final(self).max_rate() == old(self).max_rate(),
            final(self).spent_ns() == 0,
            final(self).spent_bytes() == 0,
            final(self).exceeded() == 0,
    {
        self.total_ns = 0;
        self.total_bytes = 0;
        self.budget_exceeded_count = 0;
    }
}

// ---------------------------------------------------------------------------
// Batch framing for one AEAD operation over several payloads
// ---------------------------------------------------------------------------

pub struct BatchAeadHelper;

/// One payload's frame: its length (modulo 2^32) in four little-endian
/// bytes, then its bytes.
pub open spec fn frame_of(p: Seq<u8>) -> Seq<u8> {
    u32_le((p.len() % 0x1_0000_0000) as u32) + p
}

/// Each payload as its 4-byte little-endian length (modulo 2^32) then its bytes.
pub open spec fn framed_payloads(ps: Seq<Seq<u8>>) -> Seq<u8>
    decreases ps.len(),
{
    if ps.len() == 0 {
        Seq::empty()
    } else {
        framed_payloads(ps.drop_last()) + frame_of(ps.last())
    }
}

/// The batch: the payload count (modulo 2^16) in two little-endian bytes,
/// then the framed payloads.
pub open spec fn batch_bytes(ps: Seq<Seq<u8>>) -> Seq<u8> {
    u16_le((ps.len() % 0x1_0000) as u16) + framed_payloads(ps)
}

/// Reads `count` framed payloads from `pos` on: the payloads, or the length
/// the batch would have needed when it is too short.
pub open spec fn parse_frames(b: Seq<u8>, pos: nat, count: nat) -> Result<Seq<Seq<u8>>, nat>
    decreases count,
{
    if count == 0 {
        Ok(Seq::empty())
    } else if pos + 4 > b.len() {
        Err(pos + 4)
    } else {
        let len = u32_at(b, pos as int) as nat;
        if pos + 4 + len > b.len() {
            Err(pos + 4 + len)
        } else {
            match parse_frames(b, pos + 4 + len, (count - 1) as nat) {
                Ok(rest) => Ok(seq![b.subrange((pos + 4) as int, (pos + 4 + len) as int)] + rest),
                Err(m) => Err(m),
            }
        }
    }
}

/// What splitting a batch gives: its payloads, or the length it would have
/// needed.
pub open spec fn split_spec(b: Seq<u8>) -> Result<Seq<Seq<u8>>, nat> {
    if b.len() < 2 {
        Err(2)
    } else {
        parse_frames(b, 2, u16_at(b, 0) as nat)
    }
}

/// The slices' contents.
pub open spec fn slice_views(ps: Seq<&[u8]>) -> Seq<Seq<u8>> {
    ps.map_values(|p: &[u8]| p@)
}

/// The byte vectors' contents.
pub open spec fn vec_views(ps: Seq<Vec<u8>>) -> Seq<Seq<u8>> {
    ps.map_values(|p: Vec<u8>| p@)
}

impl BatchAeadHelper {
    /// Bytes saved by one AEAD operation over `payload_count` payloads
    /// instead of one each.
    pub fn estimate_savings(payload_count: usize, individual_overhead: usize) -> (n: usize)
        requires
            payload_count > 1 ==> (payload_count - 1) * individual_overhead <= usize::MAX,
        ensures
            n == (if payload_count <= 1 {
                0
            } else {
                (payload_count - 1) * individual_overhead
            }),
    {
        if payload_count <= 1 {
            return 0;
        }
        (payload_count - 1) * individual_overhead
    }

    /// The payloads in one buffer: the count, then each length and payload.
    pub fn concatenate_payloads(payloads: &[&[u8]]) -> (out: Vec<u8>)
        ensures
            out@ == batch_bytes(slice_views(payloads@)),
    {
        let mut out: Vec<u8> = Vec::new();
        let count: u16 = (payloads.len() % 0x1_0000) as u16;
        push_u16_le(&mut out, count);
        let mut i: usize = 0;
        while i < payloads.len()
            invariant
                i <= payloads@.len(),
                out@ == u16_le((payloads@.len() % 0x1_0000) as u16) + framed_payloads(
                    slice_views(payloads@.take(i as int)),
                ),
            decreases payloads@.len() - i,
        {
            let p: &[u8] = payloads[i];
            proof {
                assert(slice_views(payloads@.take(i + 1)).drop_last() =~= slice_views(payloads@.take(i as int)));
                assert(slice_views(payloads@.take(i + 1)).last() == p@);
            }
            let ghost before = out@;
            push_u32_le(&mut out, ((p.len() as u64) % 0x1_0000_0000) as u32);
            crate::wire::append_bytes(&mut out, p);
            proof {
                assert(out@ =~= before + frame_of(p@));
            }
            i = i + 1;
        }
        proof {
            assert(payloads@.take(i as int) =~= payloads@);
        }
        out
    }

    /// The payloads of a batch, or the length the batch is missing.
    pub fn split_payloads(batch: &[u8]) -> (r: Result<Vec<Vec<u8>>, CompressError>)
        ensures
            match split_spec(batch@) {
                Ok(ps) => r matches Ok(v) && vec_views(v@) == ps,
                Err(m) => r matches Err(CompressError::CompressedPayloadTruncated { minimum, actual })
                    && minimum == (if m > usize::MAX {
                    usize::MAX as nat
                } else {
                    m
                }) && actual == batch@.len(),
            },
    {
        if batch.len() < 2 {
            return Err(CompressError::CompressedPayloadTruncated { minimum: 2, actual: batch.len() });
        }
        let count = read_u16_le(batch, 0) as usize;
        let mut payloads: Vec<Vec<u8>> = Vec::new();
        let mut pos: usize = 2;
        let mut k: usize = 0;
        while k < count
            invariant
                count == u16_at(batch@, 0),
                k <= count,
                2 <= pos <= batch@.len(),
                split_spec(batch@) == (match parse_frames(batch@, pos as nat, (count - k) as nat) {
                    Ok(rest) => Ok(vec_views(payloads@) + rest),
                    Err(m) => Err(m),
                }),
            decreases count - k,
        {
            if batch.len() - pos < 4 {
                let wanted: u128 = (pos as u128) + 4;
                let minimum: usize = if wanted > usize::MAX as u128 { usize::MAX } else { wanted as usize };
                return Err(CompressError::CompressedPayloadTruncated { minimum, actual: batch.len() });
            }
            let len = read_u32_le(batch, pos) as usize;
            if batch.len() - pos - 4 < len {
                let wanted: u128 = (pos as u128) + 4 + (len as u128);
                let minimum: usize = if wanted > usize::MAX as u128 { usize::MAX } else { wanted as usize };
                return Err(CompressError::CompressedPayloadTruncated { minimum, actual: batch.len() });
            }
            let piece = crate::wire::copy_range(batch, pos + 4, pos + 4 + len);
            let ghost before = payloads@;
            payloads.push(piece);
            proof {
                assert(vec_views(payloads@) =~= vec_views(before).push(piece@));
                let tail = parse_frames(batch@, (pos + 4 + len) as nat, (count - k - 1) as nat);
                match tail {
                    Ok(rest) => {
                        assert(vec_views(before) + (seq![piece@] + rest) =~= vec_views(payloads@) + rest);
                    },
                    Err(m) => {},
                }
            }
            pos = pos + 4 + len;
            k = k + 1;
        }
        proof {
            assert(vec_views(payloads@) + Seq::<Seq<u8>>::empty() =~= vec_views(payloads@));
        }
        Ok(payloads)
    }
}

proof fn lemma_framed_front(ps: Seq<Seq<u8>>)
    requires
        ps.len() > 0,
    ensures
        framed_payloads(ps) =~= frame_of(ps[0]) + framed_payloads(ps.drop_first()),
    decreases ps.len(),
{
    if ps.len() == 1 {
        assert(ps.drop_last().len() == 0);
        assert(framed_payloads(ps.drop_last()) =~= Seq::<u8>::empty());
        assert(ps.drop_first().len() == 0);
        assert(framed_payloads(ps.drop_first()) =~= Seq::<u8>::empty());
        assert(ps.last() == ps[0]);
        assert(framed_payloads(ps) == framed_payloads(ps.drop_last()) + frame_of(ps.last()));
    } else {
        lemma_framed_front(ps.drop_last());
        assert(ps.drop_last()[0] == ps[0]);
        assert(ps.drop_last().drop_first() =~= ps.drop_first().drop_last());
        assert(ps.drop_first().last() == ps.last());
        assert(framed_payloads(ps) == framed_payloads(ps.drop_last()) + frame_of(ps.last()));
        assert(framed_payloads(ps.drop_first()) == framed_payloads(ps.drop_first().drop_last())
            + frame_of(ps.drop_first().last()));
        assert(framed_payloads(ps.drop_last()) == frame_of(ps[0]) + framed_payloads(ps.drop_last().drop_first()));
    }
}

proof fn lemma_parse_framed(b: Seq<u8>, pos: nat, ps: Seq<Seq<u8>>)
    requires
        pos + framed_payloads(ps).len() <= b.len(),
        b.subrange(pos as int, (pos + framed_payloads(ps).len()) as int) == framed_payloads(ps),
        forall|i: int| 0 <= i < ps.len() ==> (#[trigger] ps[i]).len() < 0x1_0000_0000,
    ensures
        parse_frames(b, pos, ps.len()) == Ok::<Seq<Seq<u8>>, nat>(ps),
    decreases ps.len(),
{
    if ps.len() > 0 {
        lemma_framed_front(ps);
        let p0 = ps[0];
        let f = framed_payloads(ps);
        let rest = ps.drop_first();
        let n0 = p0.len();
        assert(n0 % 0x1_0000_0000 == n0);
        assert(f.subrange(0, 4) =~= u32_le(n0 as u32));
        assert(b.subrange(pos as int, (pos + 4) as int) =~= f.subrange(0, 4));
        crate::wire::lemma_u32_le_roundtrip(n0 as u32, b, pos as int);
        assert(b.subrange((pos + 4) as int, (pos + 4 + n0) as int) =~= f.subrange(4, 4 + n0 as int));
        assert(f.subrange(4, 4 + n0 as int) =~= p0);
        assert(b.subrange((pos + 4 + n0) as int, (pos + 4 + n0 + framed_payloads(rest).len()) as int) =~= f.subrange(
            4 + n0 as int,
            f.len() as int,
        ));
        assert(f.subrange(4 + n0 as int, f.len() as int) =~= framed_payloads(rest));
        assert forall|i: int| 0 <= i < rest.len() implies (#[trigger] rest[i]).len() < 0x1_0000_0000 by {
            assert(rest[i] == ps[i + 1]);
        }
        lemma_parse_framed(b, (pos + 4 + n0) as nat, rest);
        assert(f.len() == 4 + n0 + framed_payloads(rest).len());
        assert(pos + 4 <= b.len());
        assert(u32_at(b, pos as int) == n0 as u32);
        assert((n0 as u32) as nat == n0);
        assert(pos + 4 + n0 <= b.len());
        assert(rest.len() == (ps.len() - 1) as nat);
        assert(parse_frames(b, (pos + 4 + n0) as nat, (ps.len() - 1) as nat) == Ok::<Seq<Seq<u8>>, nat>(rest));
        assert(b.subrange((pos + 4) as int, (pos + 4 + n0) as int) == p0);
        assert(seq![p0] + rest =~= ps);
    } else {
        assert(ps =~= Seq::<Seq<u8>>::empty());
    }
}

/// Splitting a batch gives back the payloads that were put in, when there
/// are fewer than 2^16 of them and each is shorter than 2^32 bytes.
pub proof fn lemma_batch_roundtrip(ps: Seq<Seq<u8>>)
    requires
        ps.len() < 0x1_0000,
        forall|i: int| 0 <= i < ps.len() ==> (#[trigger] ps[i]).len() < 0x1_0000_0000,
    ensures
        split_spec(batch_bytes(ps)) == Ok::<Seq<Seq<u8>>, nat>(ps),
{
    let b = batch_bytes(ps);
    let n = ps.len();
    assert(n % 0x1_0000 == n);
    assert(b.subrange(0, 2) =~= u16_le(n as u16));
    crate::wire::lemma_u16_le_roundtrip(n as u16, b, 0);
    assert(b.subrange(2, (2 + framed_payloads(ps).len()) as int) =~= framed_payloads(ps));
    lemma_parse_framed(b, 2, ps);
}

} // verus!
