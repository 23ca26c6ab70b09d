//! An ordered map from `u64` keys, kept as a vector of entries sorted by key.
//! It stands where the protocol keeps per-message and per-chunk state.

use vstd::prelude::*;

verus! {

/// Keys strictly increase along the entries.
pub open spec fn keys_sorted<V>(s: Seq<(u64, V)>) -> bool {
    forall|i: int, j: int| 0 <= i < j < s.len() ==> (#[trigger] s[i]).0 < (#[trigger] s[j]).0
}

/// Whether some entry has key `k`.
pub open spec fn has_key<V>(s: Seq<(u64, V)>, k: u64) -> bool {
    exists|i: int| 0 <= i < s.len() && (#[trigger] s[i]).0 == k
}

/// The entries as a map from key to value.
pub open spec fn entries_map<V>(s: Seq<(u64, V)>) -> Map<u64, V> {
    Map::new(
        |k: u64| has_key(s, k),
        |k: u64| s[choose|i: int| 0 <= i < s.len() && (#[trigger] s[i]).0 == k].1,
    )
}

/// The keys of the entries, in order.
pub open spec fn entry_keys<V>(s: Seq<(u64, V)>) -> Seq<u64> {
    s.map_values(|e: (u64, V)| e.0)
}

/// The values of the entries, in key order.
pub open spec fn entry_values<V>(s: Seq<(u64, V)>) -> Seq<V> {
    s.map_values(|e: (u64, V)| e.1)
}

/// In sorted entries, the entry at `i` is what its key maps to.
pub proof fn lemma_entries_map_at<V>(s: Seq<(u64, V)>, i: int)
    requires
        keys_sorted(s),
        0 <= i < s.len(),
    ensures
        entries_map(s).contains_key(s[i].0),
        entries_map(s)[s[i].0] == s[i].1,
{
    let k = s[i].0;
    assert(has_key(s, k));
    let j = choose|j: int| 0 <= j < s.len() && (#[trigger] s[j]).0 == k;
    if j < i {
        assert(s[j].0 < s[i].0);
    } else if i < j {
        assert(s[i].0 < s[j].0);
    }
}

/// Two sorted entry lists with the same pairs at matching keys give the same map.
proof fn lemma_entries_map_ext<V>(a: Seq<(u64, V)>, b: Seq<(u64, V)>, m: Map<u64, V>)
    requires
        keys_sorted(a),
        forall|k: u64| #[trigger] has_key(a, k) <==> m.contains_key(k),
        forall|i: int| 0 <= i < a.len() ==> m[(#[trigger] a[i]).0] == a[i].1,
    ensures
        entries_map(a) == m,
{
    assert forall|k: u64| #[trigger] entries_map(a).contains_key(k) implies entries_map(a)[k]
        == m[k] by {
        let i = choose|i: int| 0 <= i < a.len() && (#[trigger] a[i]).0 == k;
        lemma_entries_map_at(a, i);
    }
    assert(entries_map(a) =~= m);
}

#[derive(Debug, Clone, PartialEq, Eq)]
pub struct U64Map<V> {
    entries: Vec<(u64, V)>,
}

impl<V> View for U64Map<V> {
    type V = Seq<(u64, V)>;

    closed spec fn view(&self) -> Seq<(u64, V)> {
        self.entries@
    }
}

impl<V> U64Map<V> {
    pub open spec fn wf(&self) -> bool {
        keys_sorted(self@)
    }

    /// The map the entries stand for.
    pub open spec fn map(&self) -> Map<u64, V> {
        entries_map(self@)
    }

    pub fn new() -> (m: Self)
        ensures
            m.wf(),
            m@ == Seq::<(u64, V)>::empty(),
            m.map() == Map::<u64, V>::empty(),
    {
        let m = U64Map { entries: Vec::new() };
        assert(entries_map(m@) =~= Map::<u64, V>::empty());
        m
    }

    pub fn len(&self) -> (n: usize)
        ensures
            n == self@.len(),
    {
        self.entries.len()
    }

    /// The index of the first entry whose key is at least `k`.
    fn position(&self, k: u64) -> (p: usize)
        requires
            self.wf(),
        ensures
            p <= self@.len(),
            forall|i: int| 0 <= i < p ==> (#[trigger] self@[i]).0 < k,
            forall|i: int| p <= i < self@.len() ==> (#[trigger] self@[i]).0 >= k,
    {
        let mut p: usize = 0;
        while p < self.entries.len() && self.entries[p].0 < k
            invariant
                p <= self@.len(),
                self.wf(),
                forall|i: int| 0 <= i < p ==> (#[trigger] self@[i]).0 < k,
            decreases self@.len() - p,
        {
            p = p + 1;
        }
        proof {
            if p < self@.len() {
                assert forall|i: int| p <= i < self@.len() implies (#[trigger] self@[i]).0 >= k by {
                    if i > p {
                        assert(self@[p as int].0 < self@[i].0);
                    }
                }
            }
        }
        p
    }

    pub fn contains_key(&self, k: u64) -> (b: bool)
        requires
            self.wf(),
        ensures
            b == self.map().contains_key(k),
            b == has_key(self@, k),
    {
        let p = self.position(k);
        let b = p < self.entries.len() && self.entries[p].0 == k;
        proof {
            if !b {
                assert forall|i: int| 0 <= i < self@.len() implies (#[trigger] self@[i]).0 != k by {
                    if i > p as int {
                        assert(self@[p as int].0 < self@[i].0);
                    }
                }
            }
        }
        b
    }

    pub fn get(&self, k: u64) -> (r: Option<&V>)
        requires
            self.wf(),
        ensures
            match r {
                Some(v) => self.map().contains_key(k) && *v == self.map()[k],
                None => !self.map().contains_key(k),
            },
    {
        let p = self.position(k);
        if p < self.entries.len() && self.entries[p].0 == k {
            proof {
                lemma_entries_map_at(self@, p as int);
            }
            Some(&self.entries[p].1)
        } else {
            proof {
                assert forall|i: int| 0 <= i < self@.len() implies (#[trigger] self@[i]).0 != k by {
                    if i > p as int {
                        assert(self@[p as int].0 < self@[i].0);
                    }
                }
            }
            None
        }
    }

    /// Sets the value of `k`, adding the key if it is new.
    pub fn insert(&mut self, k: u64, v: V)
        requires
            old(self).wf(),
        ensures
            final(self).wf(),
            final(self).map() == old(self).map().insert(k, v),
            final(self)@.len() == old(self)@.len() + (if has_key(old(self)@, k) {
                0int
            } else {
                1int
            }),
    {
        let p = self.position(k);
        let ghost s = self@;
        if p < self.entries.len() && self.entries[p].0 == k {
            self.entries.set(p, (k, v));
            proof {
                let t = self@;
                assert(t =~= s.update(p as int, (k, v)));
                assert forall|i: int, j: int| 0 <= i < j < t.len() implies (#[trigger] t[i]).0 < (
                #[trigger] t[j]).0 by {
                    assert(s[i].0 < s[j].0);
                }
                let m = entries_map(s).insert(k, v);
                assert forall|kk: u64| #[trigger] has_key(t, kk) <==> m.contains_key(kk) by {
                    if has_key(t, kk) {
                        let i = choose|i: int| 0 <= i < t.len() && (#[trigger] t[i]).0 == kk;
                        assert(s[i].0 == kk);
                        assert(has_key(s, kk));
                    }
                    if m.contains_key(kk) && kk != k {
                        let i = choose|i: int| 0 <= i < s.len() && (#[trigger] s[i]).0 == kk;
                        assert(t[i].0 == kk);
                    }
                    if kk == k {
                        assert(t[p as int].0 == k);
                    }
                }
                assert forall|i: int| 0 <= i < t.len() implies m[(#[trigger] t[i]).0] == t[i].1 by {
                    if i != p {
                        lemma_entries_map_at(s, i);
                    }
                }
                lemma_entries_map_ext(t, t, m);
                assert(has_key(s, k)) by {
                    assert(s[p as int].0 == k);
                }
            }
        } else {
            self.entries.insert(p, (k, v));
            proof {
                let t = self@;
                assert(t =~= s.insert(p as int, (k, v)));
                assert forall|i: int, j: int| 0 <= i < j < t.len() implies (#[trigger] t[i]).0 < (
                #[trigger] t[j]).0 by {
                    if j < p {
                        assert(s[i].0 < s[j].0);
                    } else if j == p {
                        assert(s[i].0 < k);
                    } else if i < p {
                        assert(s[i].0 < k);
                        assert(s[j - 1].0 >= k);
                    } else if i == p {
                        assert(s[j - 1].0 >= k);
                        assert(s[j - 1].0 != k) by {
                            if p < s.len() {
                                if j - 1 > p {
                                    assert(s[p as int].0 < s[j - 1].0);
                                }
                            }
                        }
                    } else {
                        assert(s[i - 1].0 < s[j - 1].0);
                    }
                }
                let m = entries_map(s).insert(k, v);
                assert(!has_key(s, k)) by {
                    assert forall|i: int| 0 <= i < s.len() implies (#[trigger] s[i]).0 != k by {
                        if i > p as int {
                            assert(s[p as int].0 < s[i].0);
                        }
                    }
                }
                assert forall|kk: u64| #[trigger] has_key(t, kk) <==> m.contains_key(kk) by {
                    if has_key(t, kk) {
                        let i = choose|i: int| 0 <= i < t.len() && (#[trigger] t[i]).0 == kk;
                        if i < p {
                            assert(s[i].0 == kk);
                        } else if i > p {
                            assert(s[i - 1].0 == kk);
                        }
                    }
                    if m.contains_key(kk) && kk != k {
                        let i = choose|i: int| 0 <= i < s.len() && (#[trigger] s[i]).0 == kk;
                        if i < p {
                            assert(t[i].0 == kk);
                        } else {
                            assert(t[i + 1].0 == kk);
                        }
                    }
                    if kk == k {
                        assert(t[p as int].0 == k);
                    }
                }
                assert forall|i: int| 0 <= i < t.len() implies m[(#[trigger] t[i]).0] == t[i].1 by {
                    if i < p {
                        lemma_entries_map_at(s, i);
                    } else if i > p {
                        lemma_entries_map_at(s, i - 1);
                    }
                }
                lemma_entries_map_ext(t, t, m);
            }
        }
    }

    /// Removes `k`, giving back its value if it was present.
    pub fn remove(&mut self, k: u64) -> (r: Option<V>)
        requires
            old(self).wf(),
        ensures
            final(self).wf(),
            final(self).map() == old(self).map().remove(k),
            match r {
                Some(v) => old(self).map().contains_key(k) && v == old(self).map()[k]
                    && final(self)@.len() == old(self)@.len() - 1,
                None => !old(self).map().contains_key(k) && final(self)@ == old(self)@,
            },
    {
        let p = self.position(k);
        let ghost s = self@;
        if p < self.entries.len() && self.entries[p].0 == k {
            let (_, v) = self.entries.remove(p);
            proof {
                let t = self@;
                assert(t =~= s.remove(p as int));
                lemma_entries_map_at(s, p as int);
                assert forall|i: int, j: int| 0 <= i < j < t.len() implies (#[trigger] t[i]).0 < (
                #[trigger] t[j]).0 by {
                    if j < p {
                        assert(s[i].0 < s[j].0);
                    } else if i < p {
                        assert(s[i].0 < s[j + 1].0);
                    } else {
                        assert(s[i + 1].0 < s[j + 1].0);
                    }
                }
                let m = entries_map(s).remove(k);
                assert forall|kk: u64| #[trigger] has_key(t, kk) <==> m.contains_key(kk) by {
                    if has_key(t, kk) {
                        let i = choose|i: int| 0 <= i < t.len() && (#[trigger] t[i]).0 == kk;
                        if i < p {
                            assert(s[i].0 == kk);
                            assert(s[i].0 < s[p as int].0);
                        } else {
                            assert(s[i + 1].0 == kk);
                            assert(s[p as int].0 < s[i + 1].0);
                        }
                    }
                    if m.contains_key(kk) {
                        let i = choose|i: int| 0 <= i < s.len() && (#[trigger] s[i]).0 == kk;
                        if i < p {
                            assert(t[i].0 == kk);
                        } else if i > p {
                            assert(t[i - 1].0 == kk);
                        }
                    }
                }
                assert forall|i: int| 0 <= i < t.len() implies m[(#[trigger] t[i]).0] == t[i].1 by {
                    if i < p {
                        lemma_entries_map_at(s, i);
                        assert(s[i].0 < s[p as int].0);
                    } else {
                        lemma_entries_map_at(s, i + 1);
                        assert(s[p as int].0 < s[i + 1].0);
                    }
                }
                lemma_entries_map_ext(t, t, m);
            }
            Some(v)
        } else {
            proof {
                assert forall|i: int| 0 <= i < s.len() implies (#[trigger] s[i]).0 != k by {
                    if i > p as int {
                        assert(s[p as int].0 < s[i].0);
                    }
                }
                assert(entries_map(s).remove(k) =~= entries_map(s));
            }
            None
        }
    }

    /// Removes the entry with the smallest key.
    pub fn remove_first(&mut self) -> (r: Option<(u64, V)>)
        requires
            old(self).wf(),
        ensures
            final(self).wf(),
            old(self)@.len() == 0 ==> r is None && final(self)@ == old(self)@,
            old(self)@.len() > 0 ==> r == Some(old(self)@[0]) && final(self)@ == old(self)@.drop_first() && final(self).map() == old(self).map().remove(old(self)@[0].0) && (
            forall|k: u64| #[trigger] final(self).map().contains_key(k) ==> old(self)@[0].0 < k),
    {
        if self.entries.len() == 0 {
            return None;
        }
        let e = self.entries.remove(0);
        proof {
            assert(self@ =~= old(self)@.drop_first());
            assert forall|i: int, j: int| 0 <= i < j < self@.len() implies (
            #[trigger] self@[i]).0 < (#[trigger] self@[j]).0 by {
                assert(old(self)@[i + 1].0 < old(self)@[j + 1].0);
            }
            let s = old(self)@;
            let t = self@;
            let m = entries_map(s).remove(s[0].0);
            lemma_entries_map_at(s, 0);
            assert forall|kk: u64| #[trigger] has_key(t, kk) <==> m.contains_key(kk) by {
                if has_key(t, kk) {
                    let i = choose|i: int| 0 <= i < t.len() && (#[trigger] t[i]).0 == kk;
                    assert(s[i + 1].0 == kk);
                    assert(s[0].0 < s[i + 1].0);
                }
                if m.contains_key(kk) {
                    let i = choose|i: int| 0 <= i < s.len() && (#[trigger] s[i]).0 == kk;
                    assert(i != 0);
                    assert(t[i - 1].0 == kk);
                }
            }
            assert forall|i: int| 0 <= i < t.len() implies m[(#[trigger] t[i]).0] == t[i].1 by {
                lemma_entries_map_at(s, i + 1);
                assert(s[0].0 < s[i + 1].0);
            }
            lemma_entries_map_ext(t, t, m);
            assert forall|k: u64| #[trigger] entries_map(t).contains_key(k) implies s[0].0 < k by {
                let i = choose|i: int| 0 <= i < t.len() && (#[trigger] t[i]).0 == k;
                assert(s[0].0 < s[i + 1].0);
            }
        }
        Some(e)
    }

    /// The key of the entry at `i`, in increasing key order.
    pub fn key_at(&self, i: usize) -> (k: u64)
        requires
            i < self@.len(),
        ensures
            k == self@[i as int].0,
    {
        self.entries[i].0
    }

    /// The value of the entry at `i`, in increasing key order.
    pub fn value_at(&self, i: usize) -> (v: &V)
        requires
            i < self@.len(),
        ensures
            *v == self@[i as int].1,
    {
        &self.entries[i].1
    }

    /// Adds an entry whose key is greater than every key present.
    pub fn push_greatest(&mut self, k: u64, v: V)
        requires
            old(self).wf(),
            forall|i: int| 0 <= i < old(self)@.len() ==> (#[trigger] old(self)@[i]).0 < k,
        ensures
            final(self).wf(),
            final(self)@ == old(self)@.push((k, v)),
    {
        self.entries.push((k, v));
    }

    /// The keys in increasing order.
    pub fn keys(&self) -> (ks: Vec<u64>)
        ensures
            ks@ == entry_keys(self@),
    {
        let mut ks: Vec<u64> = Vec::new();
        let mut i: usize = 0;
        while i < self.entries.len()
            invariant
                i <= self@.len(),
                ks@ == entry_keys(self@.subrange(0, i as int)),
            decreases self@.len() - i,
        {
            ks.push(self.entries[i].0);
            i = i + 1;
            assert(ks@ =~= entry_keys(self@.subrange(0, i as int)));
        }
        assert(self@.subrange(0, i as int) =~= self@);
        ks
    }

    /// The values in key order, consuming the map.
    pub fn into_values(self) -> (vs: Vec<V>)
        ensures
            vs@ == entry_values(self@),
    {
        let mut entries = self.entries;
        let ghost s = entries@;
        let mut vs: Vec<V> = Vec::new();
        while entries.len() > 0
            invariant
                vs@ + entry_values(entries@) == entry_values(s),
            decreases entries@.len(),
        {
            let ghost before = entries@;
            let (_, v) = entries.remove(0);
            vs.push(v);
            proof {
                assert(entry_values(before) =~= seq![v] + entry_values(entries@));
                assert(vs@ + entry_values(entries@) =~= entry_values(s));
            }
        }
        assert(entry_values(entries@) =~= Seq::<V>::empty());
        assert(vs@ =~= entry_values(s));
        vs
    }
}

} // verus!
