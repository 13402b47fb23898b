//! The percentile histogram: a bounded-memory structure that takes
//! latencies in microseconds and answers quantile queries with a relative
//! error below one part in a thousand.
//!
//! Values are capped at sixty seconds. A value below 2048 gets its own
//! bucket; above that, each halving doubles the bucket width, so a bucket
//! holds values that agree in their top eleven significant bits. A
//! quantile query walks the bucket counts and answers the highest value of
//! the first bucket whose cumulative count reaches the quantile's share of
//! the recorded total, clamped to the largest value recorded.

use vstd::prelude::*;

verus! {

/// Recorded values are capped here: sixty seconds, in microseconds.
pub const LATENCY_CAP_US: u64 = 60000000;

/// Number of buckets; `qbucket(LATENCY_CAP_US)` is 17191.
pub const Q_BUCKET_COUNT: usize = 17408;

/// The bucket of a (capped) value.
pub open spec fn qbucket(v: int) -> int
    decreases v,
{
    if v < 2048 {
        v
    } else {
        1024 + qbucket(v / 2)
    }
}

/// The highest value in a bucket.
pub open spec fn qrep(b: int) -> int
    decreases b,
{
    if b < 2048 {
        b
    } else {
        2 * qrep(b - 1024) + 1
    }
}

pub proof fn lemma_qbucket_bounds(v: int)
    requires
        0 <= v,
    ensures
        0 <= qbucket(v),
        v >= 1024 ==> qbucket(v) >= 1024,
    decreases v,
{
    if v >= 2048 {
        lemma_qbucket_bounds(v / 2);
    }
}

/// Larger values land in the same or a later bucket.
pub proof fn lemma_qbucket_monotone(v1: int, v2: int)
    requires
        0 <= v1 <= v2,
    ensures
        qbucket(v1) <= qbucket(v2),
    decreases v2,
{
    if v1 < 2048 && v2 < 2048 {
    } else if v1 < 2048 {
        lemma_qbucket_bounds(v2 / 2);
    } else {
        lemma_qbucket_monotone(v1 / 2, v2 / 2);
    }
}

/// Capped values stay inside the bucket range.
pub proof fn lemma_qbucket_in_range(v: int)
    requires
        0 <= v <= LATENCY_CAP_US,
    ensures
        0 <= qbucket(v) < Q_BUCKET_COUNT,
{
    lemma_qbucket_bounds(v);
    lemma_qbucket_monotone(v, LATENCY_CAP_US as int);
    assert(qbucket(LATENCY_CAP_US as int) == 17191) by {
        reveal_with_fuel(qbucket, 17);
    }
}

pub proof fn lemma_qrep_bounds(b: int)
    requires
        0 <= b,
    ensures
        qrep(b) >= b,
    decreases b,
{
    if b >= 2048 {
        lemma_qrep_bounds(b - 1024);
    }
}

/// Later buckets hold larger values.
pub proof fn lemma_qrep_monotone(b1: int, b2: int)
    requires
        0 <= b1 <= b2,
    ensures
        qrep(b1) <= qrep(b2),
    decreases b2,
{
    if b1 < 2048 && b2 < 2048 {
    } else if b1 < 2048 {
        lemma_qrep_bounds(b2 - 1024);
    } else {
        lemma_qrep_monotone(b1 - 1024, b2 - 1024);
    }
}

/// No bucket's highest value is above `qrep(Q_BUCKET_COUNT - 1)`.
pub proof fn lemma_qrep_cap(b: int)
    requires
        0 <= b < Q_BUCKET_COUNT,
    ensures
        qrep(b) <= 67108863,
{
    lemma_qrep_monotone(b, Q_BUCKET_COUNT - 1);
    assert(qrep(Q_BUCKET_COUNT - 1) == 67108863) by {
        reveal_with_fuel(qrep, 17);
    }
}

/// The bucket of a capped value.
pub fn qbucket_index(value: u64) -> (r: usize)
    requires
        value <= LATENCY_CAP_US,
    ensures
        r as int == qbucket(value as int),
        r < Q_BUCKET_COUNT,
{
    let mut v = value;
    let mut acc: usize = 0;
    proof {
        lemma_qbucket_in_range(value as int);
    }
    while v >= 2048
        invariant
            acc + qbucket(v as int) == qbucket(value as int),
            0 <= qbucket(value as int) < Q_BUCKET_COUNT,
            0 <= acc <= qbucket(value as int),
            v <= value,
        decreases v,
    {
        proof {
            lemma_qbucket_bounds(v as int / 2);
        }
        v = v / 2;
        acc = acc + 1024;
    }
    acc + (v as usize)
}

/// The highest value in a bucket.
pub fn qrep_value(b: usize) -> (r: u64)
    requires
        b < Q_BUCKET_COUNT,
    ensures
        r as int == qrep(b as int),
    decreases b,
{
    proof {
        lemma_qrep_cap(b as int);
    }
    if b < 2048 {
        b as u64
    } else {
        proof {
            lemma_qrep_cap(b as int - 1024);
        }
        2 * qrep_value(b - 1024) + 1
    }
}

/// The sum of the first `b` bucket counts.
pub open spec fn prefix_total(counts: Seq<int>, b: int) -> int
    decreases b,
{
    if b <= 0 {
        0
    } else {
        prefix_total(counts, b - 1) + counts[b - 1]
    }
}

/// The first bucket at which the cumulative count reaches `target`, or
/// the last bucket if none does.
pub open spec fn qindex(counts: Seq<int>, target: int, b: int) -> int
    decreases counts.len() - b,
{
    if b >= counts.len() - 1 {
        b
    } else if prefix_total(counts, b + 1) >= target {
        b
    } else {
        qindex(counts, target, b + 1)
    }
}

/// A smaller target is reached at the same bucket or an earlier one.
pub proof fn lemma_qindex_monotone(counts: Seq<int>, t1: int, t2: int, b: int)
    requires
        t1 <= t2,
    ensures
        qindex(counts, t1, b) <= qindex(counts, t2, b),
    decreases counts.len() - b,
{
    if b < counts.len() - 1 {
        if prefix_total(counts, b + 1) >= t2 {
        } else {
            lemma_qindex_monotone(counts, t1, t2, b + 1);
            if prefix_total(counts, b + 1) >= t1 {
                lemma_qindex_lower(counts, t2, b + 1);
            }
        }
    }
}

pub proof fn lemma_qindex_lower(counts: Seq<int>, target: int, b: int)
    ensures
        qindex(counts, target, b) >= b,
    decreases counts.len() - b,
{
    if b < counts.len() - 1 && prefix_total(counts, b + 1) < target {
        lemma_qindex_lower(counts, target, b + 1);
    }
}

pub proof fn lemma_qindex_upper(counts: Seq<int>, target: int, b: int)
    requires
        0 <= b < counts.len(),
    ensures
        qindex(counts, target, b) < counts.len(),
    decreases counts.len() - b,
{
    if b < counts.len() - 1 && prefix_total(counts, b + 1) < target {
        lemma_qindex_upper(counts, target, b + 1);
    }
}

/// The quantile value that a count table answers: the highest value of
/// the first bucket whose cumulative count reaches `target`, clamped to
/// `qmax`, the largest value recorded.
pub open spec fn quantile_value(counts: Seq<int>, target: int, qmax: int) -> int {
    let b = qindex(counts, target, 0);
    if qrep(b) < qmax {
        qrep(b)
    } else {
        qmax
    }
}

/// A larger target gives the same or a larger quantile value, never above
/// `qmax`.
pub proof fn lemma_quantile_value_monotone(counts: Seq<int>, t1: int, t2: int, qmax: int)
    requires
        t1 <= t2,
        counts.len() > 0,
        qmax >= 0,
    ensures
        quantile_value(counts, t1, qmax) <= quantile_value(counts, t2, qmax) <= qmax,
{
    lemma_qindex_monotone(counts, t1, t2, 0);
    lemma_qindex_lower(counts, t1, 0);
    lemma_qindex_upper(counts, t1, 0);
    lemma_qindex_upper(counts, t2, 0);
    lemma_qrep_monotone(qindex(counts, t1, 0), qindex(counts, t2, 0));
}

/// A point update moves a prefix sum by the delta when it covers the
/// updated index.
pub proof fn lemma_prefix_total_update(counts: Seq<int>, i: int, v: int, b: int)
    requires
        0 <= i < counts.len(),
        b <= counts.len(),
    ensures
        prefix_total(counts.update(i, v), b) == prefix_total(counts, b) + (if i < b {
            v - counts[i]
        } else {
            0
        }),
    decreases b,
{
    if b > 0 {
        lemma_prefix_total_update(counts, i, v, b - 1);
        assert(counts.update(i, v)[b - 1] == (if b - 1 == i {
            v
        } else {
            counts[b - 1]
        }));
    }
}

/// The bucket at which a walk from `b0` first reaches `target`.
pub proof fn lemma_qindex_is(counts: Seq<int>, target: int, b0: int, b: int)
    requires
        0 <= b0 <= b < counts.len(),
        forall|j: int| b0 <= j < b ==> #[trigger] prefix_total(counts, j + 1) < target,
        prefix_total(counts, b + 1) >= target || b == counts.len() - 1,
    ensures
        qindex(counts, target, b0) == b,
    decreases b - b0,
{
    if b0 < b {
        lemma_qindex_is(counts, target, b0 + 1, b);
    }
}

/// The percentile structure: per-bucket counts of the recorded (capped)
/// latencies, their number, and the largest capped value seen.
pub struct LatencyHistogram {
    counts: Vec<u64>,
    total: u64,
    max_recorded: u64,
}

impl LatencyHistogram {
    /// The per-bucket counts.
    pub closed spec fn spec_counts(&self) -> Seq<int> {
        self.counts@.map_values(|c: u64| c as int)
    }

    /// How many values were recorded.
    pub closed spec fn spec_total(&self) -> int {
        self.total as int
    }

    /// The largest capped value recorded; 0 when empty.
    pub closed spec fn spec_max(&self) -> int {
        self.max_recorded as int
    }

    pub closed spec fn wf(&self) -> bool {
        &&& self.counts@.len() == Q_BUCKET_COUNT
        &&& self.max_recorded <= LATENCY_CAP_US
        &&& (forall|b: int| 0 <= b < self.counts@.len() ==> #[trigger] self.counts@[b] <= self.total)
        &&& prefix_total(self.spec_counts(), Q_BUCKET_COUNT as int) == self.total as int
        &&& (self.total == 0 ==> self.max_recorded == 0)
    }

    pub fn new() -> (r: LatencyHistogram)
        ensures
            r.wf(),
            r.spec_total() == 0,
            r.spec_max() == 0,
            r.spec_counts() == Seq::new(Q_BUCKET_COUNT as nat, |b: int| 0int),
    {
        let counts: Vec<u64> = vec![0u64; Q_BUCKET_COUNT];
        let r = LatencyHistogram { counts, total: 0, max_recorded: 0 };
        proof {
            assert(r.spec_counts() =~= Seq::new(Q_BUCKET_COUNT as nat, |b: int| 0int));
            lemma_prefix_total_zero(r.spec_counts(), Q_BUCKET_COUNT as int);
        }
        r
    }

    /// The value recorded for a latency: capped at sixty seconds.
    pub open spec fn capped(latency_us: u64) -> int {
        if latency_us < LATENCY_CAP_US {
            latency_us as int
        } else {
            LATENCY_CAP_US as int
        }
    }

    /// Record one latency.
    pub fn record(&mut self, latency_us: u64)
        requires
            old(self).wf(),
            old(self).spec_total() < u64::MAX,
        ensures
            final(self).wf(),
            final(self).spec_total() == old(self).spec_total() + 1,
            final(self).spec_counts() == old(self).spec_counts().update(
                qbucket(Self::capped(latency_us)),
                old(self).spec_counts()[qbucket(Self::capped(latency_us))] + 1,
            ),
            final(self).spec_max() == (if Self::capped(latency_us) > old(self).spec_max() {
                Self::capped(latency_us)
            } else {
                old(self).spec_max()
            }),
    {
        let v = if latency_us < LATENCY_CAP_US {
            latency_us
        } else {
            LATENCY_CAP_US
        };
        let idx = qbucket_index(v);
        let ghost oldc = self.spec_counts();
        let c = self.counts[idx];
        self.counts[idx] = c + 1;
        self.total = self.total + 1;
        if v > self.max_recorded {
            self.max_recorded = v;
        }
        proof {
            assert(self.spec_counts() =~= oldc.update(idx as int, oldc[idx as int] + 1));
            lemma_prefix_total_update(oldc, idx as int, oldc[idx as int] + 1,
                Q_BUCKET_COUNT as int);
        }
    }

    /// The share of `total` that a percentile asks for: the count at or
    /// below which the percentile sits, at least 1.
    pub open spec fn spec_target(total: int, pct: int) -> int {
        let t = (total * pct + 99) / 100;
        if t < 1 {
            1
        } else {
            t
        }
    }

    /// What a quantile query answers.
    pub open spec fn spec_value_at(&self, pct: int) -> int {
        if self.spec_total() == 0 {
            0
        } else {
            quantile_value(
                self.spec_counts(),
                Self::spec_target(self.spec_total(), pct),
                self.spec_max(),
            )
        }
    }

    /// The value at the given percentile (1 to 100) of everything
    /// recorded so far; 0 when nothing was.
    pub fn value_at_percentile(&self, pct: u64) -> (r: u64)
        requires
            self.wf(),
            1 <= pct <= 100,
        ensures
            r as int == self.spec_value_at(pct as int),
    {
        if self.total == 0 {
            return 0;
        }
        let t128: u128 = self.total as u128;
        let p128: u128 = pct as u128;
        proof {
            assert(t128 * p128 <= t128 * 100) by (nonlinear_arith)
                requires
                    p128 <= 100,
                    0 <= t128,
            ;
            assert(t128 * 100 + 99 < u128::MAX) by (nonlinear_arith)
                requires
                    t128 < 0x1_0000_0000_0000_0000,
            ;
            assert((t128 * p128 + 99) / 100 <= t128) by (nonlinear_arith)
                requires
                    p128 <= 100,
                    0 <= t128,
            ;
        }
        let target_wide: u128 = t128 * p128 + 99;
        let target_small: u128 = target_wide / 100;
        let target: u64 = if target_small < 1 {
            1
        } else {
            #[verifier::truncate] (target_small as u64)
        };
        proof {
            assert(target as int == Self::spec_target(self.spec_total(), pct as int));
            assert(target <= self.total);
        }
        let mut cum: u64 = 0;
        let mut b: usize = 0;
        let n = self.counts.len();
        while b < n - 1
            invariant
                self.wf(),
                0 <= b < n,
                n == Q_BUCKET_COUNT,
                1 <= target <= self.total,
                1 <= pct <= 100,
                target as int == Self::spec_target(self.spec_total(), pct as int),
                cum as int == prefix_total(self.spec_counts(), b as int),
                cum < target,
                forall|j: int| 0 <= j < b ==> #[trigger] prefix_total(self.spec_counts(), j + 1) < target,
            decreases n - b,
        {
            proof {
                lemma_prefix_total_le(self.spec_counts(), b as int + 1, Q_BUCKET_COUNT as int);
            }
            let next = cum + self.counts[b];
            if next >= target {
                proof {
                    assert(self.spec_counts()[b as int] == self.counts@[b as int] as int);
                    assert(prefix_total(self.spec_counts(), b as int + 1) == cum
                        + self.counts@[b as int]);
                    lemma_qindex_is(self.spec_counts(), target as int, 0, b as int);
                    lemma_qrep_cap(b as int);
                    assert(qindex(self.spec_counts(), target as int, 0) == b as int);
                    assert(Self::spec_target(self.spec_total(), pct as int) == target as int);
                    assert(self.spec_total() != 0);
                    assert(self.spec_value_at(pct as int) == quantile_value(
                        self.spec_counts(),
                        target as int,
                        self.spec_max(),
                    ));
                    assert(quantile_value(self.spec_counts(), target as int, self.spec_max())
                        == (if qrep(b as int) < self.spec_max() {
                        qrep(b as int)
                    } else {
                        self.spec_max()
                    }));
                }
                let rep = qrep_value(b);
                return if rep < self.max_recorded {
                    rep
                } else {
                    self.max_recorded
                };
            }
            proof {
                assert(self.spec_counts()[b as int] == self.counts@[b as int] as int);
            }
            cum = next;
            b += 1;
        }
        proof {
            lemma_qindex_is(self.spec_counts(), target as int, 0, b as int);
            lemma_qrep_cap(b as int);
        }
        let rep = qrep_value(b);
        if rep < self.max_recorded {
            rep
        } else {
            self.max_recorded
        }
    }
}

/// The prefix sums of the all-zero table are zero.
pub proof fn lemma_prefix_total_zero(counts: Seq<int>, b: int)
    requires
        forall|i: int| 0 <= i < counts.len() ==> counts[i] == 0,
        b <= counts.len(),
    ensures
        prefix_total(counts, b) == 0,
    decreases b,
{
    if b > 0 {
        lemma_prefix_total_zero(counts, b - 1);
    }
}

/// Prefix sums of a nonnegative table grow with the prefix.
pub proof fn lemma_prefix_total_le(counts: Seq<int>, b1: int, b2: int)
    requires
        0 <= b1 <= b2 <= counts.len(),
        forall|i: int| 0 <= i < counts.len() ==> counts[i] >= 0,
    ensures
        prefix_total(counts, b1) <= prefix_total(counts, b2),
    decreases b2,
{
    if b1 < b2 {
        lemma_prefix_total_le(counts, b1, b2 - 1);
    }
}

} // verus!
