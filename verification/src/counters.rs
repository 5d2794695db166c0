//! Counters of the decode caches.

use crate::arith::{clamp_ns, sat_u64, sat_usize};
use crate::keys::{DecodeChoice, Int8DecodeSplit};
use crate::profile::{bumped, worker_slot};
use vstd::prelude::*;

verus! {

/// Counters shared by the eight-bit and four-bit decode caches. All saturate.
#[derive(Clone, Copy, Debug, PartialEq, Eq, Structural)]
pub struct DecodeCounters {
    pub hits: usize,
    pub misses: usize,
    pub hit_ns: u64,
    pub miss_ns: u64,
    pub worker1_calls: usize,
    pub worker2_calls: usize,
    pub worker3_calls: usize,
    pub ksplit_calls: usize,
}

impl DecodeCounters {
    /// All counters at zero.
    pub open spec fn zero() -> Self {
        DecodeCounters {
            hits: 0,
            misses: 0,
            hit_ns: 0,
            miss_ns: 0,
            worker1_calls: 0,
            worker2_calls: 0,
            worker3_calls: 0,
            ksplit_calls: 0,
        }
    }

    /// All counters at zero.
    pub fn new() -> (c: Self)
        ensures
            c == Self::zero(),
    {
        DecodeCounters {
            hits: 0,
            misses: 0,
            hit_ns: 0,
            miss_ns: 0,
            worker1_calls: 0,
            worker2_calls: 0,
            worker3_calls: 0,
            ksplit_calls: 0,
        }
    }

    /// One more cache hit.
    pub open spec fn after_hit(self) -> Self {
        DecodeCounters { hits: sat_usize(self.hits + 1), ..self }
    }

    /// One more cache miss.
    pub open spec fn after_miss(self) -> Self {
        DecodeCounters { misses: sat_usize(self.misses + 1), ..self }
    }

    /// One more call on `workers` cores.
    pub open spec fn after_worker_call(self, workers: usize) -> Self {
        DecodeCounters {
            worker1_calls: bumped(self.worker1_calls, worker_slot(workers) == Some(0int)),
            worker2_calls: bumped(self.worker2_calls, worker_slot(workers) == Some(1int)),
            worker3_calls: bumped(self.worker3_calls, worker_slot(workers) == Some(2int)),
            ..self
        }
    }

    /// One more executed call under a choice.
    pub open spec fn after_choice(self, choice: DecodeChoice) -> Self {
        let c = self.after_worker_call(choice.workers);
        DecodeCounters {
            ksplit_calls: bumped(c.ksplit_calls, choice.split == Int8DecodeSplit::K),
            ..c
        }
    }

    /// The time of one finished call, on the account of hits or of misses.
    pub open spec fn after_elapsed(self, hit: bool, elapsed_ns: u128) -> Self {
        let ns = sat_u64(elapsed_ns as int);
        if hit {
            DecodeCounters { hit_ns: sat_u64(self.hit_ns + ns), ..self }
        } else {
            DecodeCounters { miss_ns: sat_u64(self.miss_ns + ns), ..self }
        }
    }

    /// Counts a cache hit.
    pub fn count_hit(&mut self)
        ensures
            *final(self) == old(self).after_hit(),
    {
        self.hits = self.hits.saturating_add(1);
    }

    /// Counts a cache miss.
    pub fn count_miss(&mut self)
        ensures
            *final(self) == old(self).after_miss(),
    {
        self.misses = self.misses.saturating_add(1);
    }

    /// Counts a call on `workers` cores.
    pub fn count_worker_call(&mut self, workers: usize)
        ensures
            *final(self) == old(self).after_worker_call(workers),
    {
        if workers <= 1 {
            self.worker1_calls = self.worker1_calls.saturating_add(1);
        } else if workers == 2 {
            self.worker2_calls = self.worker2_calls.saturating_add(1);
        } else if workers == 3 {
            self.worker3_calls = self.worker3_calls.saturating_add(1);
        }
    }

    /// Counts an executed call under a choice.
    pub fn count_choice(&mut self, choice: DecodeChoice)
        ensures
            *final(self) == old(self).after_choice(choice),
    {
        self.count_worker_call(choice.workers);
        if choice.split == Int8DecodeSplit::K {
            self.ksplit_calls = self.ksplit_calls.saturating_add(1);
        }
    }

    /// Books the time of a finished call.
    pub fn count_elapsed(&mut self, hit: bool, elapsed_ns: u128)
        ensures
            *final(self) == old(self).after_elapsed(hit, elapsed_ns),
    {
        let ns: u64 = clamp_ns(elapsed_ns);
        if hit {
            self.hit_ns = self.hit_ns.saturating_add(ns);
        } else {
            self.miss_ns = self.miss_ns.saturating_add(ns);
        }
    }
}

/// Each count goes to its own counter: a hit, a miss, a call by the number of its
/// cores, a call that shares K, and the time of a hit or of a miss.
pub proof fn law_counts_go_to_their_own_counters(
    c: DecodeCounters,
    choice: DecodeChoice,
    hit: bool,
    ns: u128,
)
    requires
        c.hits < usize::MAX,
        c.misses < usize::MAX,
        c.worker1_calls < usize::MAX,
        c.worker2_calls < usize::MAX,
        c.worker3_calls < usize::MAX,
        c.ksplit_calls < usize::MAX,
        c.hit_ns + ns <= u64::MAX,
        c.miss_ns + ns <= u64::MAX,
    ensures
        c.after_hit().hits - c.hits == 1,
        (DecodeCounters { hits: c.hits, ..c.after_hit() }) == c,
        c.after_miss().misses - c.misses == 1,
        (DecodeCounters { misses: c.misses, ..c.after_miss() }) == c,
        ({
            let q = c.after_choice(choice);
            &&& (q.worker1_calls - c.worker1_calls == 1) == (choice.workers <= 1)
            &&& (q.worker2_calls - c.worker2_calls == 1) == (choice.workers == 2)
            &&& (q.worker3_calls - c.worker3_calls == 1) == (choice.workers == 3)
            &&& (q.ksplit_calls - c.ksplit_calls == 1) == (choice.split == Int8DecodeSplit::K)
            &&& choice.workers <= 3 ==> (q.worker1_calls + q.worker2_calls + q.worker3_calls) - (
            c.worker1_calls + c.worker2_calls + c.worker3_calls) == 1
            &&& choice.workers > 3 ==> (q.worker1_calls + q.worker2_calls + q.worker3_calls) == (
            c.worker1_calls + c.worker2_calls + c.worker3_calls)
            &&& q.hits == c.hits && q.misses == c.misses
            &&& q.hit_ns == c.hit_ns && q.miss_ns == c.miss_ns
        }),
        c.after_choice(choice).ksplit_calls >= c.ksplit_calls,
        choice.split != Int8DecodeSplit::K ==> c.after_choice(choice) == c.after_worker_call(
            choice.workers,
        ),
        ({
            let q = c.after_elapsed(hit, ns);
            &&& q.hit_ns - c.hit_ns == (if hit {
                ns as int
            } else {
                0
            })
            &&& q.miss_ns - c.miss_ns == (if hit {
                0
            } else {
                ns as int
            })
            &&& (DecodeCounters { hit_ns: c.hit_ns, miss_ns: c.miss_ns, ..q }) == c
        }),
        DecodeCounters::zero().hits == 0 && DecodeCounters::zero().misses == 0,
        DecodeCounters::zero().hit_ns == 0 && DecodeCounters::zero().miss_ns == 0,
        DecodeCounters::zero().worker1_calls == 0 && DecodeCounters::zero().worker2_calls == 0
            && DecodeCounters::zero().worker3_calls == 0 && DecodeCounters::zero().ksplit_calls
            == 0,
{
}

/// Counters start at zero.
pub proof fn law_counters_start_at_zero()
    ensures
        ({
            let c = DecodeCounters::zero();
            &&& c.hits == 0 && c.misses == 0 && c.hit_ns == 0 && c.miss_ns == 0
            &&& c.worker1_calls == 0 && c.worker2_calls == 0 && c.worker3_calls == 0
            &&& c.ksplit_calls == 0
        }),
{
}

} // verus!
