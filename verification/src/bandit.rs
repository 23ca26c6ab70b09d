//! The UCB1 route selector's bookkeeping: success and failure counts per
//! route family and the total number of pulls. The UCB1 score itself is a
//! real-valued formula and is computed outside this library from the counts
//! given here.

use vstd::prelude::*;
use crate::chpmt::ControllerRouteFamily;
use crate::num::sat_add_u32;

verus! {

/// Successes and failures of one arm.
#[derive(Debug, Clone, Copy, PartialEq, Eq, Default, Structural)]
pub struct ArmStats {
    pub successes: u32,
    pub failures: u32,
}

/// `a + b`, saturated at `u64::MAX`.
pub open spec fn sat_add_u64(a: u64, b: u64) -> u64 {
    if a + b > u64::MAX {
        u64::MAX
    } else {
        (a + b) as u64
    }
}

/// The pulls of an arm: its successes and failures.
pub open spec fn arm_pulls(a: ArmStats) -> u64 {
    (a.successes + a.failures) as u64
}

/// The counts of an arm, if it has been tracked (the first entry for it).
pub open spec fn arm_lookup(arms: Seq<(ControllerRouteFamily, ArmStats)>, f: ControllerRouteFamily) -> Option<ArmStats>
    decreases arms.len(),
{
    if arms.len() == 0 {
        None
    } else if arms[0].0 == f {
        Some(arms[0].1)
    } else {
        arm_lookup(arms.drop_first(), f)
    }
}

/// The route bookkeeping's arithmetic: counts and the pull total only grow,
/// by exactly what was added until they reach their maximum, where they
/// stay; an arm's pulls are its successes and failures together.
pub proof fn lemma_counts_saturate(a: u32, b: u32, x: u64, y: u64, arm: ArmStats)
    ensures
        sat_add_u32(a, b) >= a,
        a as int + b as int <= u32::MAX ==> sat_add_u32(a, b) == a + b,
        a as int + b as int > u32::MAX ==> sat_add_u32(a, b) == u32::MAX,
        sat_add_u64(x, y) >= x,
        x as int + y as int <= u64::MAX ==> sat_add_u64(x, y) == x + y,
        x as int + y as int > u64::MAX ==> sat_add_u64(x, y) == u64::MAX,
        arm_pulls(arm) == arm.successes as int + arm.failures as int,
{
}

/// Per-family counts of route outcomes.
#[derive(Debug)]
pub struct Ucb1RouteSelector {
    arm_stats: Vec<(ControllerRouteFamily, ArmStats)>,
    total_pulls: u64,
}

impl Ucb1RouteSelector {
    /// The counts of a family, if it has been tracked.
    pub closed spec fn arm(&self, f: ControllerRouteFamily) -> Option<ArmStats> {
        arm_lookup(self.arm_stats@, f)
    }

    pub closed spec fn pulls_total(&self) -> u64 {
        self.total_pulls
    }

    pub fn new() -> (s: Self)
        ensures
            forall|f: ControllerRouteFamily| #[trigger] s.arm(f) is None,
            s.pulls_total() == 0,
    {
        Ucb1RouteSelector { arm_stats: Vec::new(), total_pulls: 0 }
    }

    fn find(&self, family: ControllerRouteFamily) -> (r: Option<usize>)
        ensures
            match r {
                Some(i) => i < self.arm_stats@.len() && self.arm_stats@[i as int].0 == family && self.arm(
                    family,
                ) == Some(self.arm_stats@[i as int].1) && forall|j: int| 0 <= j < i ==> (
                #[trigger] self.arm_stats@[j]).0 != family,
                None => self.arm(family) is None,
            },
    {
        let mut i: usize = 0;
        assert(self.arm_stats@.subrange(0, self.arm_stats@.len() as int) =~= self.arm_stats@);
        while i < self.arm_stats.len()
            invariant
                i <= self.arm_stats@.len(),
                arm_lookup(self.arm_stats@, family) == arm_lookup(
                    self.arm_stats@.subrange(i as int, self.arm_stats@.len() as int),
                    family,
                ),
                forall|j: int| 0 <= j < i ==> (#[trigger] self.arm_stats@[j]).0 != family,
            decreases self.arm_stats@.len() - i,
        {
            proof {
                let rest = self.arm_stats@.subrange(i as int, self.arm_stats@.len() as int);
                assert(rest[0] == self.arm_stats@[i as int]);
                assert(rest.drop_first() =~= self.arm_stats@.subrange(i + 1, self.arm_stats@.len() as int));
            }
            if self.arm_stats[i].0 == family {
                return Some(i);
            }
            i = i + 1;
        }
        None
    }

    fn add_counts(&mut self, family: ControllerRouteFamily, successes: u32, failures: u32)
        ensures
            final(self).arm(family) == Some(
                match old(self).arm(family) {
                    Some(a) => ArmStats {
                        successes: sat_add_u32(a.successes, successes),
                        failures: sat_add_u32(a.failures, failures),
                    },
                    None => ArmStats { successes, failures },
                },
            ),
            forall|g: ControllerRouteFamily| g != family ==> #[trigger] final(self).arm(g) == old(self).arm(g),
            final(self).pulls_total() == old(self).pulls_total(),
    {
        let ghost before = self.arm_stats@;
        match self.find(family) {
            Some(i) => {
                let a = self.arm_stats[i].1;
                let updated = ArmStats {
                    successes: a.successes.saturating_add(successes),
                    failures: a.failures.saturating_add(failures),
                };
                self.arm_stats.set(i, (family, updated));
                proof {
                    lemma_arm_update(before, i as int, family, updated);
                }
            },
            None => {
                self.arm_stats.push((family, ArmStats { successes, failures }));
                proof {
                    lemma_arm_push(before, family, ArmStats { successes, failures });
                }
            },
        }
    }

    /// Counts one outcome of a family.
    pub fn record_outcome(&mut self, family: ControllerRouteFamily, success: bool)
        ensures
            final(self).arm(family) == Some(
                match old(self).arm(family) {
                    Some(a) => if success {
                        ArmStats { successes: sat_add_u32(a.successes, 1), ..a }
                    } else {
                        ArmStats { failures: sat_add_u32(a.failures, 1), ..a }
                    },
                    None => if success {
                        ArmStats { successes: 1, failures: 0 }
                    } else {
                        ArmStats { successes: 0, failures: 1 }
                    },
                },
            ),
            forall|g: ControllerRouteFamily| g != family ==> #[trigger] final(self).arm(g) == old(self).arm(g),
            final(self).pulls_total() == sat_add_u64(old(self).pulls_total(), 1),
    {
        if success {
            self.add_counts(family, 1, 0);
        } else {
            self.add_counts(family, 0, 1);
        }
        let ghost mid = *self;
        self.total_pulls = self.total_pulls.saturating_add(1);
        assert forall|g: ControllerRouteFamily| #[trigger] self.arm(g) == mid.arm(g) by {}
    }

    /// Counts several outcomes of a family.
    pub fn record_outcomes(&mut self, family: ControllerRouteFamily, successes: u32, failures: u32)
        ensures
            final(self).arm(family) == Some(
                match old(self).arm(family) {
                    Some(a) => ArmStats {
                        successes: sat_add_u32(a.successes, successes),
                        failures: sat_add_u32(a.failures, failures),
                    },
                    None => ArmStats { successes, failures },
                },
            ),
            forall|g: ControllerRouteFamily| g != family ==> #[trigger] final(self).arm(g) == old(self).arm(g),
            final(self).pulls_total() == sat_add_u64(
                old(self).pulls_total(),
                (successes + failures) as u64,
            ),
    {
        self.add_counts(family, successes, failures);
        let ghost mid = *self;
        let added: u64 = (successes as u64) + (failures as u64);
        self.total_pulls = self.total_pulls.saturating_add(added);
        assert forall|g: ControllerRouteFamily| #[trigger] self.arm(g) == mid.arm(g) by {}
    }

    /// The pulls of a family; zero when untracked.
    pub fn pulls_for(&self, family: ControllerRouteFamily) -> (n: u64)
        ensures
            n == (match self.arm(family) {
                Some(a) => arm_pulls(a),
                None => 0,
            }),
    {
        match self.find(family) {
            Some(i) => {
                let a = self.arm_stats[i].1;
                (a.successes as u64) + (a.failures as u64)
            },
            None => 0,
        }
    }

    /// The counts of a family, if tracked.
    pub fn arm_counts(&self, family: ControllerRouteFamily) -> (r: Option<ArmStats>)
        ensures
            r == self.arm(family),
    {
        match self.find(family) {
            Some(i) => Some(self.arm_stats[i].1),
            None => None,
        }
    }

    pub fn total_pulls(&self) -> (n: u64)
        ensures
            n == self.pulls_total(),
    {
        self.total_pulls
    }
}

proof fn lemma_arm_update(s: Seq<(ControllerRouteFamily, ArmStats)>, i: int, f: ControllerRouteFamily, v: ArmStats)
    requires
        0 <= i < s.len(),
        s[i].0 == f,
        forall|j: int| 0 <= j < i ==> (#[trigger] s[j]).0 != f,
    ensures
        arm_lookup(s.update(i, (f, v)), f) == Some(v),
        forall|g: ControllerRouteFamily| g != f ==> #[trigger] arm_lookup(s.update(i, (f, v)), g)
            == arm_lookup(s, g),
    decreases s.len(),
{
    let t = s.update(i, (f, v));
    if i == 0 {
        assert(t.drop_first() =~= s.drop_first());
        assert forall|g: ControllerRouteFamily| g != f implies #[trigger] arm_lookup(t, g) == arm_lookup(s, g) by {
            assert(t[0].0 == f);
        }
    } else {
        let s1 = s.drop_first();
        assert(s[0].0 != f);
        assert(s1[i - 1] == s[i]);
        assert forall|j: int| 0 <= j < i - 1 implies (#[trigger] s1[j]).0 != f by {
            assert(s1[j] == s[j + 1]);
        }
        lemma_arm_update(s1, i - 1, f, v);
        assert(t.drop_first() =~= s1.update(i - 1, (f, v)));
        assert(t[0] == s[0]);
        assert forall|g: ControllerRouteFamily| g != f implies #[trigger] arm_lookup(t, g) == arm_lookup(s, g) by {
            if s[0].0 != g {
                assert(arm_lookup(s1.update(i - 1, (f, v)), g) == arm_lookup(s1, g));
            }
        }
    }
}

proof fn lemma_arm_push(s: Seq<(ControllerRouteFamily, ArmStats)>, f: ControllerRouteFamily, v: ArmStats)
    requires
        arm_lookup(s, f) is None,
    ensures
        arm_lookup(s.push((f, v)), f) == Some(v),
        forall|g: ControllerRouteFamily| g != f ==> #[trigger] arm_lookup(s.push((f, v)), g) == arm_lookup(s, g),
    decreases s.len(),
{
    let t = s.push((f, v));
    if s.len() == 0 {
        assert(t.drop_first() =~= Seq::<(ControllerRouteFamily, ArmStats)>::empty());
        assert(t[0] == (f, v));
        assert forall|g: ControllerRouteFamily| g != f implies #[trigger] arm_lookup(t, g) == arm_lookup(s, g) by {
            assert(arm_lookup(t.drop_first(), g) is None);
        }
    } else {
        assert(t.drop_first() =~= s.drop_first().push((f, v)));
        assert(t[0] == s[0]);
        assert(s[0].0 != f);
        lemma_arm_push(s.drop_first(), f, v);
        assert forall|g: ControllerRouteFamily| g != f implies #[trigger] arm_lookup(t, g) == arm_lookup(s, g) by {
            if s[0].0 != g {
                assert(arm_lookup(s.drop_first().push((f, v)), g) == arm_lookup(s.drop_first(), g));
            }
        }
    }
}

} // verus!
