//! The metrics aggregator: one pass over the classified samples, streaming
//! accumulators, and the assembly of the aggregated result.

use vstd::prelude::*;
use vstd::multiset::Multiset;
use crate::benchmark_types::{
    BenchmarkAggregatedMetrics, BenchmarkErrorSample, BenchmarkErrorType,
    BenchmarkHistogramBucket, BenchmarkLatencyMetrics, BenchmarkSummaryMetrics,
    BenchmarkTimeseriesPoint, ErrorTypeCount, SampleResult, StatusCount,
};
use crate::kernel::{
    agg_kernel, bump, bump_series, capped_latency, display_bucket, display_bucket_index,
    display_edge, empty_kernel, empty_series, kernel_inv, lemma_agg_push, lemma_kernel_inv,
    sample_message, sample_triple, series_inv, series_key, spec_display_edge, step, AggKernel,
    SeriesKernel, DISPLAY_BUCKET_COUNT,
};
use crate::qhist::{
    prefix_total, qbucket, quantile_value, LatencyHistogram, LATENCY_CAP_US, Q_BUCKET_COUNT,
};

verus! {

/// `v`, saturated at the largest `u64`.
pub open spec fn sat64(v: int) -> int {
    if v > u64::MAX {
        u64::MAX as int
    } else {
        v
    }
}

/// `v`, saturated at the largest `u128`.
pub open spec fn sat128(v: int) -> int {
    if v > u128::MAX {
        u128::MAX as int
    } else {
        v
    }
}

/// `a / b`, rounded half up.
pub open spec fn round_div(a: int, b: int) -> int {
    a / b + (if 2 * (a % b) >= b {
        1int
    } else {
        0int
    })
}

/// Online accumulator for count, sum, sum of squares, smallest and largest
/// value: a single streaming pass, no sample is retained.
pub struct RunningStats {
    pub count: u64,
    pub sum: u128,
    pub sumsq: u128,
    pub min: u64,
    pub max: u64,
}

impl RunningStats {
    /// The accumulator agrees with the accumulated state `k`.
    pub open spec fn matches(&self, k: AggKernel) -> bool {
        &&& self.count as int == k.total
        &&& self.sum as int == sat128(k.lat_sum)
        &&& self.sumsq as int == sat128(k.lat_sumsq)
        &&& (k.total > 0 ==> self.min as int == k.lat_min && self.max as int == k.lat_max)
        &&& (k.total == 0 ==> self.min == 0 && self.max == 0)
    }

    pub fn new() -> (r: RunningStats)
        ensures
            r.matches(empty_kernel()),
    {
        RunningStats { count: 0, sum: 0, sumsq: 0, min: 0, max: 0 }
    }

    /// Fold one value in.
    pub fn add(&mut self, value: u64)
        requires
            old(self).count < u64::MAX,
        ensures
            final(self).count == old(self).count + 1,
            final(self).sum as int == sat128(old(self).sum + value),
            final(self).sumsq as int == sat128(old(self).sumsq + value * value),
            final(self).min == (if old(self).count == 0 || value < old(self).min {
                value
            } else {
                old(self).min
            }),
            final(self).max == (if old(self).count == 0 || value > old(self).max {
                value
            } else {
                old(self).max
            }),
    {
        if self.count == 0 {
            self.min = value;
            self.max = value;
        } else {
            if value < self.min {
                self.min = value;
            }
            if value > self.max {
                self.max = value;
            }
        }
        self.count = self.count + 1;
        let v = value as u128;
        proof {
            assert(v * v <= u128::MAX) by (nonlinear_arith)
                requires
                    0 <= v < 0x1_0000_0000_0000_0000,
            ;
        }
        self.sum = self.sum.saturating_add(v);
        self.sumsq = self.sumsq.saturating_add(v * v);
    }
}

/// The integer square root, as a function: the unique nonnegative `r`
/// with `r * r <= v < (r + 1) * (r + 1)`.
pub open spec fn spec_isqrt(v: int) -> int {
    choose|r: int| 0 <= r && #[trigger] (r * r) <= v < (r + 1) * (r + 1)
}

/// At most one value sits between the two square bounds: contracts that
/// state them pin the root.
pub proof fn lemma_isqrt_unique(a: int, b: int, v: int)
    requires
        0 <= a,
        0 <= b,
        a * a <= v < (a + 1) * (a + 1),
        b * b <= v < (b + 1) * (b + 1),
    ensures
        a == b,
{
    assert(a == b) by (nonlinear_arith)
        requires
            0 <= a,
            0 <= b,
            a * a <= v < (a + 1) * (a + 1),
            b * b <= v < (b + 1) * (b + 1),
    ;
}

/// The integer square root: the largest `r` with `r * r <= x`.
pub fn isqrt(x: u128) -> (r: u64)
    ensures
        (r as int) * (r as int) <= x,
        x < (r as int + 1) * (r as int + 1),
        r as int == spec_isqrt(x as int),
{
    let mut lo: u128 = 0;
    let mut hi: u128 = 0x1_0000_0000_0000_0000;
    proof {
        assert(hi * hi > u128::MAX) by (nonlinear_arith)
            requires
                hi == 0x1_0000_0000_0000_0000,
        ;
    }
    while lo + 1 < hi
        invariant
            0 <= lo < hi <= 0x1_0000_0000_0000_0000,
            lo * lo <= x,
            x < hi * hi,
        decreases hi - lo,
    {
        let mid = lo + (hi - lo) / 2;
        proof {
            assert(mid * mid <= u128::MAX) by (nonlinear_arith)
                requires
                    0 < mid < 0x1_0000_0000_0000_0000,
            ;
        }
        if mid * mid <= x {
            lo = mid;
        } else {
            hi = mid;
        }
    }
    proof {
        let lov = lo as int;
        assert(0 <= lov && lov * lov <= (x as int) && (x as int) < (lov + 1) * (lov + 1));
        let c = spec_isqrt(x as int);
        assert(0 <= c && c * c <= (x as int) && (x as int) < (c + 1) * (c + 1)) by {
            assert(exists|r: int| 0 <= r && #[trigger] (r * r) <= (x as int) && (x as int) < (r + 1) * (r + 1)) by {
                assert(0 <= lov && lov * lov <= (x as int) && (x as int) < (lov + 1) * (lov + 1));
            };
        };
        lemma_isqrt_unique(lov, c, x as int);
    }
    lo as u64
}

/// The sample standard deviation that the accumulated sums imply:
/// the integer square root of `(n * sumsq - sum^2) / (n * (n - 1))`,
/// 0 for fewer than two values. The result is pinned in every case: the
/// two bounds on `r * r` determine it uniquely (`lemma_isqrt_unique`),
/// and it saturates when an intermediate product leaves `u128`.
pub fn stddev_from_sums(count: u64, sum: u128, sumsq: u128) -> (r: u64)
    ensures
        count < 2 ==> r == 0,
        (count >= 2 && (count * sumsq > u128::MAX || sum * sum > u128::MAX)) ==> r == u64::MAX,
        (count >= 2 && count * sumsq <= u128::MAX && sum * sum <= u128::MAX) ==> {
            let variance = (count * sumsq - sum * sum) / ((count as int) * (count as int - 1));
            &&& (count * sumsq >= sum * sum ==> r as int == spec_isqrt(variance) && (r as int) * (
            r as int) <= variance < (r as int + 1) * (r as int + 1))
            &&& (count * sumsq < sum * sum ==> r == 0)
        },
{
    if count < 2 {
        return 0;
    }
    let n = count as u128;
    let nss = n.checked_mul(sumsq);
    let ss = sum.checked_mul(sum);
    match (nss, ss) {
        (Some(a), Some(b)) => {
            if a < b {
                return 0;
            }
            let d = a - b;
            proof {
                assert(n * (n - 1) <= u128::MAX && n * (n - 1) >= 2) by (nonlinear_arith)
                    requires
                        2 <= n < 0x1_0000_0000_0000_0000,
                ;
            }
            let denom = n * (n - 1);
            isqrt(d / denom)
        },
        _ => u64::MAX,
    }
}

/// Per-second accumulation while the pass runs.
pub struct SeriesAccum {
    pub ts: u64,
    pub success: u64,
    pub error: u64,
    pub bytes_in: u64,
    pub bytes_out: u64,
    pub lats: Vec<u64>,
}

/// One distinct error while the pass runs.
pub struct ErrAccum {
    pub etype: BenchmarkErrorType,
    pub status: Option<u16>,
    pub message: String,
    pub count: u64,
    pub body: Option<String>,
}

/// The identity of a distinct-error accumulator.
pub open spec fn triple_of_acc(a: ErrAccum) -> (BenchmarkErrorType, Option<u16>, Seq<char>) {
    (a.etype, a.status, a.message@)
}

/// The captured body of the first sample of this error identity that
/// carried one.
pub open spec fn first_body(
    s: Seq<SampleResult>,
    t: (BenchmarkErrorType, Option<u16>, Seq<char>),
) -> Option<Seq<char>>
    decreases s.len(),
{
    if s.len() == 0 {
        None
    } else if !s[0].cancelled && s[0].error_type is Some && sample_triple(s[0]) == t
        && s[0].sample_body is Some {
        Some(s[0].sample_body->0@)
    } else {
        first_body(s.drop_first(), t)
    }
}

/// Appending a sample changes a first-seen body only where none was seen.
pub proof fn lemma_first_body_push(
    s: Seq<SampleResult>,
    x: SampleResult,
    t: (BenchmarkErrorType, Option<u16>, Seq<char>),
)
    ensures
        first_body(s.push(x), t) == (match first_body(s, t) {
            Some(b) => Some(b),
            None => {
                if !x.cancelled && x.error_type is Some && sample_triple(x) == t
                    && x.sample_body is Some {
                    Some(x.sample_body->0@)
                } else {
                    None::<Seq<char>>
                }
            },
        }),
    decreases s.len(),
{
    let p = s.push(x);
    if s.len() == 0 {
        assert(p[0] == x);
        assert(p.drop_first() =~= Seq::<SampleResult>::empty());
        if !x.cancelled && x.error_type is Some && sample_triple(x) == t && x.sample_body is Some {
            assert(first_body(p, t) == Some(x.sample_body->0@));
        } else {
            assert(first_body(p, t) == first_body(p.drop_first(), t));
            assert(first_body(p.drop_first(), t) is None);
        }
    } else {
        assert(p[0] == s[0]);
        assert(p.drop_first() =~= s.drop_first().push(x));
        lemma_first_body_push(s.drop_first(), x, t);
        if !s[0].cancelled && s[0].error_type is Some && sample_triple(s[0]) == t
            && s[0].sample_body is Some {
            assert(first_body(p, t) == Some(s[0].sample_body->0@));
            assert(first_body(s, t) == Some(s[0].sample_body->0@));
        } else {
            assert(first_body(p, t) == first_body(p.drop_first(), t));
            assert(first_body(s, t) == first_body(s.drop_first(), t));
        }
    }
}

/// The status-count entries agree with the map `m`: ascending and unique,
/// each entry carrying its key's count, every key present.
pub open spec fn status_entries_match(s: Seq<(u16, u64)>, m: Map<u16, int>) -> bool {
    &&& (forall|i: int, j: int| 0 <= i < j < s.len() ==> (#[trigger] s[i]).0 < (#[trigger] s[j]).0)
    &&& (forall|i: int|
        0 <= i < s.len() ==> m.contains_key((#[trigger] s[i]).0) && s[i].1 as int == m[s[i].0])
    &&& (forall|c: u16| #[trigger] m.contains_key(c) ==> exists|i: int|
        0 <= i < s.len() && (#[trigger] s[i]).0 == c)
}

/// The error-type count entries agree with the map `m`: ascending by rank
/// and unique, each entry carrying its type's count, every type present.
pub open spec fn etype_entries_match(
    s: Seq<(BenchmarkErrorType, u64)>,
    m: Map<BenchmarkErrorType, int>,
) -> bool {
    &&& (forall|i: int, j: int|
        0 <= i < j < s.len() ==> crate::sample::etype_rank((#[trigger] s[i]).0)
            < crate::sample::etype_rank((#[trigger] s[j]).0))
    &&& (forall|i: int|
        0 <= i < s.len() ==> m.contains_key((#[trigger] s[i]).0) && s[i].1 as int == m[s[i].0])
    &&& (forall|e: BenchmarkErrorType| #[trigger] m.contains_key(e) ==> exists|i: int|
        0 <= i < s.len() && (#[trigger] s[i]).0 == e)
}

/// One per-second accumulator agrees with its bucket state.
pub open spec fn series_entry_matches(a: SeriesAccum, sk: SeriesKernel) -> bool {
    &&& a.success as int == sk.success
    &&& a.error as int == sk.error
    &&& a.bytes_in as int == sat64(sk.bytes_in)
    &&& a.bytes_out as int == sat64(sk.bytes_out)
    &&& a.lats@.to_multiset() == sk.lats
    &&& a.lats@.len() == sk.lats.len()
}

/// The per-second accumulators agree with the series map `m`: ascending
/// and unique by second, each matching its bucket, every second present.
pub open spec fn series_entries_match(s: Seq<SeriesAccum>, m: Map<int, SeriesKernel>) -> bool {
    &&& (forall|i: int, j: int|
        0 <= i < j < s.len() ==> (#[trigger] s[i]).ts < (#[trigger] s[j]).ts)
    &&& (forall|i: int|
        0 <= i < s.len() ==> m.contains_key((#[trigger] s[i]).ts as int) && series_entry_matches(
            s[i],
            m[s[i].ts as int],
        ))
    &&& (forall|ts: int| #[trigger] m.contains_key(ts) ==> exists|i: int|
        0 <= i < s.len() && (#[trigger] s[i]).ts as int == ts)
}

/// The distinct-error accumulators agree with the triple-count map `m`,
/// with first-seen bodies taken from the samples seen so far.
pub open spec fn triples_match(
    s: Seq<ErrAccum>,
    m: Map<(BenchmarkErrorType, Option<u16>, Seq<char>), int>,
    seen: Seq<SampleResult>,
) -> bool {
    &&& (forall|i: int, j: int|
        0 <= i < j < s.len() ==> triple_of_acc(#[trigger] s[i]) != triple_of_acc(#[trigger] s[j]))
    &&& (forall|i: int|
        0 <= i < s.len() ==> m.contains_key(triple_of_acc(#[trigger] s[i])) && s[i].count as int
            == m[triple_of_acc(s[i])])
    &&& (forall|i: int|
        0 <= i < s.len() ==> (match first_body(seen, triple_of_acc(#[trigger] s[i])) {
            Some(b) => s[i].body matches Some(sb) && sb@ == b,
            None => s[i].body is None,
        }))
    &&& (forall|t: (BenchmarkErrorType, Option<u16>, Seq<char>)| #[trigger] m.contains_key(t)
        ==> exists|i: int| 0 <= i < s.len() && triple_of_acc(#[trigger] s[i]) == t)
    &&& (forall|t: (BenchmarkErrorType, Option<u16>, Seq<char>)|
        !m.contains_key(t) ==> #[trigger] first_body(seen, t) is None)
}

/// The number of outcomes the per-second accumulators hold.
pub open spec fn series_vec_total(s: Seq<SeriesAccum>) -> int
    decreases s.len(),
{
    if s.len() == 0 {
        0
    } else {
        series_vec_total(s.drop_last()) + s.last().success + s.last().error
    }
}

/// Count one more occurrence of a status code.
fn bump_status_vec(v: &mut Vec<(u16, u64)>, code: u16, Ghost(m): Ghost<Map<u16, int>>)
    requires
        status_entries_match(old(v)@, m),
        forall|i: int| 0 <= i < old(v)@.len() ==> (#[trigger] old(v)@[i]).1 < u64::MAX,
    ensures
        final(v)@.len() <= old(v)@.len() + 1,
        status_entries_match(final(v)@, bump(m, code)),
{
    let n = v.len();
    let mut p: usize = 0;
    while p < n && v[p].0 < code
        invariant
            0 <= p <= n,
            n == v@.len(),
            forall|i: int| 0 <= i < p ==> (#[trigger] v@[i]).0 < code,
        decreases n - p,
    {
        p += 1;
    }
    let ghost oldv = v@;
    if p < n && v[p].0 == code {
        let c = v[p].1;
        v[p] = (code, c + 1);
        proof {
            assert(forall|i: int|
                0 <= i < v@.len() && i != p ==> v@[i] == oldv[i]);
            assert(bump(m, code).contains_key(code));
        }
    } else {
        proof {
            assert(forall|i: int| p <= i < n ==> (#[trigger] oldv[i]).0 > code) by {
                assert(forall|i: int| p <= i < n ==> (#[trigger] oldv[i]).0 != code);
            };
            assert(!m.contains_key(code)) by {
                if m.contains_key(code) {
                    let i = choose|i: int| 0 <= i < oldv.len() && (#[trigger] oldv[i]).0 == code;
                    assert(false);
                }
            };
        }
        v.insert(p, (code, 1));
        proof {
            assert(forall|i: int| 0 <= i < p ==> v@[i] == oldv[i]);
            assert(forall|i: int| p < i < v@.len() ==> v@[i] == oldv[i - 1]);
            assert forall|c: u16| bump(m, code).contains_key(c) implies exists|i: int|
                0 <= i < v@.len() && (#[trigger] v@[i]).0 == c by {
                if c == code {
                    assert(v@[p as int].0 == code);
                } else {
                    let i = choose|i: int| 0 <= i < oldv.len() && (#[trigger] oldv[i]).0 == c;
                    if i < p {
                        assert(v@[i].0 == c);
                    } else {
                        assert(v@[i + 1].0 == c);
                    }
                }
            };
        }
    }
}

/// Count one more occurrence of an error type.
fn bump_etype_vec(
    v: &mut Vec<(BenchmarkErrorType, u64)>,
    e: BenchmarkErrorType,
    Ghost(m): Ghost<Map<BenchmarkErrorType, int>>,
)
    requires
        etype_entries_match(old(v)@, m),
        forall|i: int| 0 <= i < old(v)@.len() ==> (#[trigger] old(v)@[i]).1 < u64::MAX,
    ensures
        final(v)@.len() <= old(v)@.len() + 1,
        etype_entries_match(final(v)@, bump(m, e)),
{
    let rank = crate::sample::error_type_rank(e);
    let n = v.len();
    let mut p: usize = 0;
    while p < n && crate::sample::error_type_rank(v[p].0) < rank
        invariant
            0 <= p <= n,
            n == v@.len(),
            rank as int == crate::sample::etype_rank(e),
            forall|i: int|
                0 <= i < p ==> crate::sample::etype_rank((#[trigger] v@[i]).0)
                    < crate::sample::etype_rank(e),
        decreases n - p,
    {
        p += 1;
    }
    let ghost oldv = v@;
    if p < n && crate::sample::error_type_rank(v[p].0) == rank {
        proof {
            assert(v@[p as int].0 == e);
        }
        let c = v[p].1;
        v[p] = (e, c + 1);
        proof {
            assert(forall|i: int|
                0 <= i < v@.len() && i != p ==> v@[i] == oldv[i]);
        }
    } else {
        proof {
            assert(forall|i: int|
                p <= i < n ==> crate::sample::etype_rank((#[trigger] oldv[i]).0)
                    > crate::sample::etype_rank(e));
            assert(!m.contains_key(e)) by {
                if m.contains_key(e) {
                    let i = choose|i: int| 0 <= i < oldv.len() && (#[trigger] oldv[i]).0 == e;
                    assert(false);
                }
            };
        }
        v.insert(p, (e, 1));
        proof {
            assert(forall|i: int| 0 <= i < p ==> v@[i] == oldv[i]);
            assert(forall|i: int| p < i < v@.len() ==> v@[i] == oldv[i - 1]);
            assert forall|c: BenchmarkErrorType| bump(m, e).contains_key(c) implies exists|i: int|
                0 <= i < v@.len() && (#[trigger] v@[i]).0 == c by {
                if c == e {
                    assert(v@[p as int].0 == e);
                } else {
                    let i = choose|i: int| 0 <= i < oldv.len() && (#[trigger] oldv[i]).0 == c;
                    if i < p {
                        assert(v@[i].0 == c);
                    } else {
                        assert(v@[i + 1].0 == c);
                    }
                }
            };
        }
    }
}

/// Fold one outcome into its second's accumulator.
#[verifier::rlimit(100)]
fn bump_series_vec(v: &mut Vec<SeriesAccum>, s: &SampleResult, Ghost(m): Ghost<Map<int, SeriesKernel>>)
    requires
        series_entries_match(old(v)@, m),
        !s.cancelled,
        forall|i: int|
            0 <= i < old(v)@.len() ==> (#[trigger] old(v)@[i]).success < u64::MAX && old(
                v,
            )@[i].error < u64::MAX && old(v)@[i].lats@.len() < u64::MAX,
    ensures
        final(v)@.len() <= old(v)@.len() + 1,
        series_entries_match(
            final(v)@,
            m.insert(
                series_key(*s),
                bump_series(
                    if m.contains_key(series_key(*s)) {
                        m[series_key(*s)]
                    } else {
                        empty_series()
                    },
                    *s,
                ),
            ),
        ),
        series_vec_total(final(v)@) == series_vec_total(old(v)@) + 1,
{
    broadcast use vstd::seq_lib::group_to_multiset_ensures;

    let ts: u64 = (s.timestamp_ms / 1000) * 1000;
    proof {
        assert(ts as int == series_key(*s));
    }
    let n = v.len();
    let mut p: usize = 0;
    while p < n && v[p].ts < ts
        invariant
            0 <= p <= n,
            n == v@.len(),
            forall|i: int| 0 <= i < p ==> (#[trigger] v@[i]).ts < ts,
        decreases n - p,
    {
        p += 1;
    }
    let ghost oldv = v@;
    let ghost m2 = m.insert(
        series_key(*s),
        bump_series(
            if m.contains_key(series_key(*s)) {
                m[series_key(*s)]
            } else {
                empty_series()
            },
            *s,
        ),
    );
    if p < n && v[p].ts == ts {
        let mut e = v.remove(p);
        proof {
            assert(oldv[p as int] == e);
            assert(m.contains_key(ts as int));
        }
        if s.success {
            e.success = e.success + 1;
        } else {
            e.error = e.error + 1;
        }
        e.bytes_in = e.bytes_in.saturating_add(s.bytes_in);
        e.bytes_out = e.bytes_out.saturating_add(s.bytes_out);
        let ghost oldlats = e.lats@;
        e.lats.push(s.latency_us);
        proof {
            assert(e.lats@.to_multiset() =~= oldlats.to_multiset().insert(s.latency_us));
        }
        v.insert(p, e);
        proof {
            assert(v@ =~= oldv.update(p as int, e));
            assert(forall|i: int| 0 <= i < v@.len() && i != p ==> v@[i] == oldv[i]);
            assert(series_entry_matches(v@[p as int], m2[ts as int]));
            lemma_series_vec_total_update(oldv, p as int, e);
            assert forall|k: int| #[trigger] m2.contains_key(k) implies exists|i: int|
                0 <= i < v@.len() && (#[trigger] v@[i]).ts as int == k by {
                let i = choose|i: int| 0 <= i < oldv.len() && (#[trigger] oldv[i]).ts as int == k;
                assert(v@[i].ts as int == k);
            };
        }
    } else {
        proof {
            assert(forall|i: int| p <= i < n ==> (#[trigger] oldv[i]).ts > ts);
            assert(!m.contains_key(ts as int)) by {
                if m.contains_key(ts as int) {
                    let i = choose|i: int|
                        0 <= i < oldv.len() && (#[trigger] oldv[i]).ts as int == ts;
                    assert(false);
                }
            };
        }
        let mut lats: Vec<u64> = Vec::new();
        lats.push(s.latency_us);
        let e = SeriesAccum {
            ts,
            success: if s.success {
                1
            } else {
                0
            },
            error: if s.success {
                0
            } else {
                1
            },
            bytes_in: s.bytes_in,
            bytes_out: s.bytes_out,
            lats,
        };
        proof {
            assert(e.lats@ =~= Seq::<u64>::empty().push(s.latency_us));
            assert(e.lats@.to_multiset() =~= Multiset::<u64>::empty().insert(s.latency_us));
            assert(series_entry_matches(e, m2[ts as int]));
        }
        v.insert(p, e);
        proof {
            assert(forall|i: int| 0 <= i < p ==> v@[i] == oldv[i]);
            assert(forall|i: int| p < i < v@.len() ==> v@[i] == oldv[i - 1]);
            lemma_series_vec_total_insert(oldv, p as int, e);
            assert forall|k: int| #[trigger] m2.contains_key(k) implies exists|i: int|
                0 <= i < v@.len() && (#[trigger] v@[i]).ts as int == k by {
                if k == ts as int {
                    assert(v@[p as int].ts as int == k);
                } else {
                    let i = choose|i: int|
                        0 <= i < oldv.len() && (#[trigger] oldv[i]).ts as int == k;
                    if i < p {
                        assert(v@[i].ts as int == k);
                    } else {
                        assert(v@[i + 1].ts as int == k);
                    }
                }
            };
        }
    }
}

/// Replacing one accumulator changes the held total by its own change.
proof fn lemma_series_vec_total_update(s: Seq<SeriesAccum>, p: int, e: SeriesAccum)
    requires
        0 <= p < s.len(),
    ensures
        series_vec_total(s.update(p, e)) == series_vec_total(s) - s[p].success - s[p].error
            + e.success + e.error,
    decreases s.len(),
{
    let s2 = s.update(p, e);
    if p == s.len() - 1 {
        assert(s2.drop_last() =~= s.drop_last());
        assert(s2.last() == e);
    } else {
        assert(s2.drop_last() =~= s.drop_last().update(p, e));
        assert(s2.last() == s.last());
        lemma_series_vec_total_update(s.drop_last(), p, e);
    }
}

/// Inserting an accumulator adds its own count to the held total.
proof fn lemma_series_vec_total_insert(s: Seq<SeriesAccum>, p: int, e: SeriesAccum)
    requires
        0 <= p <= s.len(),
    ensures
        series_vec_total(s.insert(p, e)) == series_vec_total(s) + e.success + e.error,
    decreases s.len(),
{
    let s2 = s.insert(p, e);
    if p == s.len() {
        assert(s2.drop_last() =~= s);
        assert(s2.last() == e);
    } else {
        assert(s2.drop_last() =~= s.drop_last().insert(p, e));
        assert(s2.last() == s.last());
        lemma_series_vec_total_insert(s.drop_last(), p, e);
    }
}

/// Fold one error outcome into its distinct-error accumulator.
fn bump_triples_vec(
    v: &mut Vec<ErrAccum>,
    s: &SampleResult,
    Ghost(m): Ghost<Map<(BenchmarkErrorType, Option<u16>, Seq<char>), int>>,
    Ghost(seen): Ghost<Seq<SampleResult>>,
)
    requires
        triples_match(old(v)@, m, seen),
        !s.cancelled,
        s.error_type is Some,
        forall|i: int| 0 <= i < old(v)@.len() ==> (#[trigger] old(v)@[i]).count < u64::MAX,
    ensures
        final(v)@.len() <= old(v)@.len() + 1,
        triples_match(final(v)@, bump(m, sample_triple(*s)), seen.push(*s)),
{
    let ghost t = sample_triple(*s);
    let ghost m2 = bump(m, t);
    proof {
        assert forall|i: int| 0 <= i < v@.len() implies (match first_body(
            seen.push(*s),
            triple_of_acc(#[trigger] v@[i]),
        ) {
            Some(b) => first_body(seen, triple_of_acc(v@[i])) == Some::<Seq<char>>(b)
                || (first_body(seen, triple_of_acc(v@[i])) is None && triple_of_acc(v@[i]) == t
                && s.sample_body is Some && b == s.sample_body->0@),
            None => first_body(seen, triple_of_acc(v@[i])) is None,
        }) by {
            lemma_first_body_push(seen, *s, triple_of_acc(v@[i]));
        };
        lemma_first_body_push(seen, *s, t);
    }
    let etype = match s.error_type {
        Some(e) => e,
        None => BenchmarkErrorType::ReadError,
    };
    let message: String = match &s.error_message {
        Some(msg) => msg.clone(),
        None => "Unknown benchmark error".to_owned(),
    };
    proof {
        assert(message@ == sample_message(*s));
    }
    let n = v.len();
    let mut p: usize = 0;
    let mut found = false;
    while p < n && !found
        invariant
            0 <= p <= n,
            n == v@.len(),
            etype == s.error_type->0,
            message@ == sample_message(*s),
            t == sample_triple(*s),
            forall|i: int| 0 <= i < p ==> triple_of_acc(#[trigger] v@[i]) != t,
            found ==> p < n && triple_of_acc(v@[p as int]) == t,
        decreases n - p + (if found { 0int } else { 1int }),
    {
        let same_status = match (v[p].status, s.status_code) {
            (Some(a), Some(b)) => a == b,
            (None, None) => true,
            _ => false,
        };
        proof {
            assert(same_status == (v@[p as int].status == s.status_code));
        }
        let same_etype = v[p].etype == etype;
        let same_message = crate::text::str_eq(v[p].message.as_str(), message.as_str());
        if same_etype && same_status && same_message {
            proof {
                assert(v@[p as int].etype == s.error_type->0);
                assert(v@[p as int].message@ == sample_message(*s));
                assert(triple_of_acc(v@[p as int]) == t);
            }
            found = true;
        } else {
            proof {
                assert(triple_of_acc(v@[p as int]) != t);
            }
            p += 1;
        }
    }
    let ghost oldv = v@;
    if found {
        proof {
            assert(triple_of_acc(oldv[p as int]) == t);
        }
        let mut e = v.remove(p);
        e.count = e.count + 1;
        if e.body.is_none() {
            e.body = match &s.sample_body {
                Some(b) => Some(b.clone()),
                None => None,
            };
        }
        v.insert(p, e);
        proof {
            assert(v@ =~= oldv.update(p as int, e));
            assert(forall|i: int| 0 <= i < v@.len() && i != p ==> v@[i] == oldv[i]);
            assert(triple_of_acc(e) == t);
            assert(forall|i: int|
                0 <= i < oldv.len() && i != p ==> triple_of_acc(#[trigger] oldv[i]) != t);
            assert(e.count as int == m2[t]);
            assert(match first_body(seen.push(*s), t) {
                Some(b) => e.body matches Some(sb) && sb@ == b,
                None => e.body is None,
            });
            assert forall|i: int| 0 <= i < v@.len() implies (match first_body(
                seen.push(*s),
                triple_of_acc(#[trigger] v@[i]),
            ) {
                Some(b) => v@[i].body matches Some(sb) && sb@ == b,
                None => v@[i].body is None,
            }) by {
                if i != p {
                    assert(v@[i] == oldv[i]);
                }
            };
            assert forall|i: int, j: int| 0 <= i < j < v@.len() implies triple_of_acc(
                #[trigger] v@[i],
            ) != triple_of_acc(#[trigger] v@[j]) by {
                if i != p && j != p {
                    assert(v@[i] == oldv[i] && v@[j] == oldv[j]);
                } else if i == p {
                    assert(triple_of_acc(v@[j]) == triple_of_acc(oldv[j]));
                } else {
                    assert(triple_of_acc(v@[i]) == triple_of_acc(oldv[i]));
                }
            };
            assert forall|i: int| 0 <= i < v@.len() implies m2.contains_key(
                triple_of_acc(#[trigger] v@[i]),
            ) && v@[i].count as int == m2[triple_of_acc(v@[i])] by {
                if i != p {
                    assert(v@[i] == oldv[i]);
                    assert(triple_of_acc(oldv[i]) != t);
                }
            };
            assert forall|tt: (BenchmarkErrorType, Option<u16>, Seq<char>)| #[trigger]
                m2.contains_key(tt) implies exists|i: int|
                0 <= i < v@.len() && triple_of_acc(#[trigger] v@[i]) == tt by {
                let i = choose|i: int|
                    0 <= i < oldv.len() && triple_of_acc(#[trigger] oldv[i]) == tt;
                assert(triple_of_acc(v@[i]) == tt);
            };
            assert forall|tt: (BenchmarkErrorType, Option<u16>, Seq<char>)| !m2.contains_key(tt)
                implies #[trigger] first_body(seen.push(*s), tt) is None by {
                lemma_first_body_push(seen, *s, tt);
            };
            assert(triples_match(v@, m2, seen.push(*s)));
            assert(m2 == bump(m, sample_triple(*s)));
        }
    } else {
        proof {
            assert(forall|i: int| 0 <= i < n ==> triple_of_acc(#[trigger] oldv[i]) != t);
            assert(!m.contains_key(t)) by {
                if m.contains_key(t) {
                    let i = choose|i: int|
                        0 <= i < oldv.len() && triple_of_acc(#[trigger] oldv[i]) == t;
                    assert(false);
                }
            };
        }
        let e = ErrAccum {
            etype,
            status: s.status_code,
            message,
            count: 1,
            body: match &s.sample_body {
                Some(b) => Some(b.clone()),
                None => None,
            },
        };
        proof {
            assert(triple_of_acc(e) == t);
        }
        v.push(e);
        proof {
            assert(v@ =~= oldv.push(e));
            assert(forall|i: int| 0 <= i < oldv.len() ==> v@[i] == oldv[i]);
            assert(triple_of_acc(e) == t);
            assert(e.count as int == m2[t]);
            assert(first_body(seen, t) is None);
            assert(match first_body(seen.push(*s), t) {
                Some(b) => e.body matches Some(sb) && sb@ == b,
                None => e.body is None,
            });
            assert forall|tt: (BenchmarkErrorType, Option<u16>, Seq<char>)| !m2.contains_key(tt)
                implies #[trigger] first_body(seen.push(*s), tt) is None by {
                lemma_first_body_push(seen, *s, tt);
            };
            assert forall|i: int, j: int| 0 <= i < j < v@.len() implies triple_of_acc(
                #[trigger] v@[i],
            ) != triple_of_acc(#[trigger] v@[j]) by {
                if j == oldv.len() {
                    assert(triple_of_acc(v@[i]) == triple_of_acc(oldv[i]));
                    assert(triple_of_acc(v@[j]) == t);
                } else {
                    assert(v@[i] == oldv[i] && v@[j] == oldv[j]);
                }
            };
            assert forall|i: int| 0 <= i < v@.len() implies m2.contains_key(
                triple_of_acc(#[trigger] v@[i]),
            ) && v@[i].count as int == m2[triple_of_acc(v@[i])] by {
                if i != oldv.len() {
                    assert(v@[i] == oldv[i]);
                    assert(triple_of_acc(oldv[i]) != t);
                }
            };
            assert forall|i: int| 0 <= i < v@.len() implies (match first_body(
                seen.push(*s),
                triple_of_acc(#[trigger] v@[i]),
            ) {
                Some(b) => v@[i].body matches Some(sb) && sb@ == b,
                None => v@[i].body is None,
            }) by {
                if i != oldv.len() {
                    assert(v@[i] == oldv[i]);
                }
            };
            assert forall|tt: (BenchmarkErrorType, Option<u16>, Seq<char>)| #[trigger]
                m2.contains_key(tt) implies exists|i: int|
                0 <= i < v@.len() && triple_of_acc(#[trigger] v@[i]) == tt by {
                if tt == t {
                    assert(triple_of_acc(v@[oldv.len() as int]) == tt);
                } else {
                    let i = choose|i: int|
                        0 <= i < oldv.len() && triple_of_acc(#[trigger] oldv[i]) == tt;
                    assert(triple_of_acc(v@[i]) == tt);
                }
            };
            assert(triples_match(v@, m2, seen.push(*s)));
        }
    }
}

/// Appending a sample that adds nothing to the error table leaves the
/// distinct-error accumulators in agreement.
proof fn lemma_triples_skip(
    v: Seq<ErrAccum>,
    m: Map<(BenchmarkErrorType, Option<u16>, Seq<char>), int>,
    seen: Seq<SampleResult>,
    x: SampleResult,
)
    requires
        triples_match(v, m, seen),
        x.cancelled || x.error_type is None,
    ensures
        triples_match(v, m, seen.push(x)),
{
    assert forall|i: int| 0 <= i < v.len() implies first_body(
        seen.push(x),
        triple_of_acc(#[trigger] v[i]),
    ) == first_body(seen, triple_of_acc(v[i])) by {
        lemma_first_body_push(seen, x, triple_of_acc(v[i]));
    };
    assert forall|t: (BenchmarkErrorType, Option<u16>, Seq<char>)| !m.contains_key(t)
        implies #[trigger] first_body(seen.push(x), t) is None by {
        lemma_first_body_push(seen, x, t);
    };
}

/// Ascending order on a value sequence.
pub open spec fn sorted_u64(s: Seq<u64>) -> bool {
    forall|i: int, j: int| 0 <= i < j < s.len() ==> s[i] <= s[j]
}

/// The sum of a value sequence.
pub open spec fn useq_sum(s: Seq<u64>) -> int
    decreases s.len(),
{
    if s.len() == 0 {
        0
    } else {
        useq_sum(s.drop_last()) + s.last()
    }
}

/// The index a 95th percentile reads in a sorted sequence of `n` values.
pub open spec fn p95_index(n: int) -> int {
    (95 * n + 99) / 100 - 1
}

/// The counts the emitted histogram holds, summed.
pub open spec fn hist_sum(h: Seq<BenchmarkHistogramBucket>) -> int
    decreases h.len(),
{
    if h.len() == 0 {
        0
    } else {
        hist_sum(h.drop_last()) + h.last().count
    }
}

/// The outcomes the emitted time series holds, summed.
pub open spec fn ts_sum(t: Seq<BenchmarkTimeseriesPoint>) -> int
    decreases t.len(),
{
    if t.len() == 0 {
        0
    } else {
        ts_sum(t.drop_last()) + t.last().rps_success + t.last().rps_error
    }
}

/// One emitted point agrees with its second's accumulated state.
pub open spec fn point_matches(p: BenchmarkTimeseriesPoint, sk: SeriesKernel) -> bool {
    &&& p.rps_success as int == sk.success
    &&& p.rps_error as int == sk.error
    &&& p.bytes_in as int == sat64(sk.bytes_in)
    &&& p.bytes_out as int == sat64(sk.bytes_out)
    &&& exists|ss: Seq<u64>|
        {
            &&& sorted_u64(ss)
            &&& #[trigger] ss.to_multiset() == sk.lats
            &&& ss.len() == sk.lats.len()
            &&& ss.len() >= 1
            &&& p.latency_p95_us == ss[p95_index(ss.len() as int)]
            &&& p.latency_avg_us as int == sat64(round_div(sat128(useq_sum(ss)), ss.len() as int))
        }
}

/// The emitted time series agrees with the series map: chronological and
/// unique, one point per active second, each matching its bucket, and its
/// outcome counts summing to `total`.
pub open spec fn timeseries_matches(
    t: Seq<BenchmarkTimeseriesPoint>,
    m: Map<int, SeriesKernel>,
    total: int,
) -> bool {
    &&& (forall|i: int, j: int|
        0 <= i < j < t.len() ==> (#[trigger] t[i]).bucket_ts_ms < (#[trigger] t[j]).bucket_ts_ms)
    &&& (forall|i: int|
        0 <= i < t.len() ==> m.contains_key((#[trigger] t[i]).bucket_ts_ms as int)
            && point_matches(t[i], m[t[i].bucket_ts_ms as int]))
    &&& (forall|ts: int| #[trigger] m.contains_key(ts) ==> exists|i: int|
        0 <= i < t.len() && (#[trigger] t[i]).bucket_ts_ms as int == ts)
    &&& ts_sum(t) == total
}

/// The emitted histogram agrees with the display-bucket counts: ascending,
/// exactly the non-empty buckets with their edges and counts, and its
/// counts summing to `total`.
pub open spec fn histogram_matches(h: Seq<BenchmarkHistogramBucket>, hist: Seq<int>, total: int) -> bool {
    &&& (forall|i: int, j: int|
        0 <= i < j < h.len() ==> (#[trigger] h[i]).lower_bound_ms < (#[trigger] h[j]).lower_bound_ms)
    &&& (forall|i: int|
        0 <= i < h.len() ==> exists|b: int|
            {
                &&& 0 <= b < DISPLAY_BUCKET_COUNT
                &&& (#[trigger] h[i]).lower_bound_ms as int == spec_display_edge(b)
                &&& h[i].upper_bound_ms as int == spec_display_edge(b + 1)
                &&& h[i].count as int == #[trigger] hist[b]
                &&& hist[b] > 0
            })
    &&& (forall|b: int|
        0 <= b < DISPLAY_BUCKET_COUNT && #[trigger] hist[b] > 0 ==> exists|i: int|
            0 <= i < h.len() && (#[trigger] h[i]).lower_bound_ms as int == spec_display_edge(b))
    &&& hist_sum(h) == total
}

/// The error type a wire name denotes.
pub open spec fn name_to_etype(n: Seq<char>) -> Option<BenchmarkErrorType> {
    if n == "DNS_ERROR"@ { Some(BenchmarkErrorType::DnsError) }
    else if n == "CONNECT_ERROR"@ { Some(BenchmarkErrorType::ConnectError) }
    else if n == "TLS_ERROR"@ { Some(BenchmarkErrorType::TlsError) }
    else if n == "TIMEOUT"@ { Some(BenchmarkErrorType::Timeout) }
    else if n == "READ_ERROR"@ { Some(BenchmarkErrorType::ReadError) }
    else if n == "HTTP_STATUS_4XX"@ { Some(BenchmarkErrorType::HttpStatus4xx) }
    else if n == "HTTP_STATUS_5XX"@ { Some(BenchmarkErrorType::HttpStatus5xx) }
    else if n == "CANCELED"@ { Some(BenchmarkErrorType::Canceled) }
    else { None }
}

/// Wire names decode back to their error type.
#[verifier::rlimit(100)]
#[verifier::spinoff_prover]
pub proof fn lemma_name_roundtrip(e: BenchmarkErrorType)
    ensures
        name_to_etype(crate::sample::etype_name(e)) == Some(e),
{
    reveal_strlit("CANCELED");
    reveal_strlit("CONNECT_ERROR");
    reveal_strlit("DNS_ERROR");
    reveal_strlit("HTTP_STATUS_4XX");
    reveal_strlit("HTTP_STATUS_5XX");
    reveal_strlit("READ_ERROR");
    reveal_strlit("TIMEOUT");
    reveal_strlit("TLS_ERROR");
    let n = crate::sample::etype_name(e);
    match e {
        BenchmarkErrorType::DnsError => {
            assert(name_to_etype(n) == Some(BenchmarkErrorType::DnsError));
        },
        BenchmarkErrorType::ConnectError => {
            assert(n != "DNS_ERROR"@) by {
                assert(n.len() == 13);
            };
            assert(name_to_etype(n) == Some(BenchmarkErrorType::ConnectError));
        },
        BenchmarkErrorType::TlsError => {
            assert(n != "DNS_ERROR"@) by {
                if n == "DNS_ERROR"@ {
                    assert(n[0] == 'D');
                    assert(false);
                }
            };
            assert(n != "CONNECT_ERROR"@) by {
                assert(n.len() == 9);
            };
            assert(name_to_etype(n) == Some(BenchmarkErrorType::TlsError));
        },
        BenchmarkErrorType::Timeout => {
            assert(n.len() == 7);
            assert(name_to_etype(n) == Some(BenchmarkErrorType::Timeout));
        },
        BenchmarkErrorType::ReadError => {
            assert(n.len() == 10);
            assert(name_to_etype(n) == Some(BenchmarkErrorType::ReadError));
        },
        BenchmarkErrorType::HttpStatus4xx => {
            assert(n.len() == 15);
            assert(name_to_etype(n) == Some(BenchmarkErrorType::HttpStatus4xx));
        },
        BenchmarkErrorType::HttpStatus5xx => {
            assert(n.len() == 15);
            assert(n != "HTTP_STATUS_4XX"@) by {
                if n == "HTTP_STATUS_4XX"@ {
                    assert(n[12] == '4');
                    assert(false);
                }
            };
            assert(name_to_etype(n) == Some(BenchmarkErrorType::HttpStatus5xx));
        },
        BenchmarkErrorType::Canceled => {
            assert(n.len() == 8);
            assert(name_to_etype(n) == Some(BenchmarkErrorType::Canceled));
        },
    }
}

/// One reported error entry stands for the triple `t`.
pub open spec fn entry_matches_triple(
    e: BenchmarkErrorSample,
    t: (BenchmarkErrorType, Option<u16>, Seq<char>),
    m: Map<(BenchmarkErrorType, Option<u16>, Seq<char>), int>,
    samples: Seq<SampleResult>,
) -> bool {
    &&& e.error_type@ == crate::sample::etype_name(t.0)
    &&& e.status_code == t.1
    &&& e.message@ == t.2
    &&& m.contains_key(t)
    &&& e.count as int == m[t]
    &&& (match first_body(samples, t) {
        Some(b) => e.sample_body matches Some(sb) && sb@ == b,
        None => e.sample_body is None,
    })
}

/// One reported entry is internally coherent: its name denotes an error
/// type, and it carries that triple's recorded count and first body.
pub open spec fn entry_valid(
    e: BenchmarkErrorSample,
    m: Map<(BenchmarkErrorType, Option<u16>, Seq<char>), int>,
    samples: Seq<SampleResult>,
) -> bool {
    &&& name_to_etype(e.error_type@) is Some
    &&& entry_matches_triple(
        e,
        (name_to_etype(e.error_type@)->0, e.status_code, e.message@),
        m,
        samples,
    )
}

/// The ranked top-K error list: at most `cap` entries, sorted by count
/// descending and then name ascending, each standing for a distinct
/// recorded error; when fewer than `cap` entries come out, every distinct
/// recorded error appears.
pub open spec fn top_errors_match(
    te: Seq<BenchmarkErrorSample>,
    m: Map<(BenchmarkErrorType, Option<u16>, Seq<char>), int>,
    cap: int,
    samples: Seq<SampleResult>,
) -> bool {
    &&& te.len() <= cap
    &&& te.len() as int == (if m.dom().len() < cap {
        m.dom().len() as int
    } else {
        cap
    })
    &&& (forall|i: int| 0 <= i < te.len() ==> entry_valid(#[trigger] te[i], m, samples))
    &&& (forall|i: int, j: int|
        0 <= i < j < te.len() ==> (#[trigger] te[i]).count > (#[trigger] te[j]).count || (
        te[i].count == te[j].count && crate::sample::lex_le(te[i].error_type@, te[j].error_type@)))
    &&& (forall|i: int, j: int|
        0 <= i < j < te.len() ==> ((#[trigger] te[i]).error_type@, te[i].status_code,
        te[i].message@) != ((#[trigger] te[j]).error_type@, te[j].status_code, te[j].message@))
    &&& (te.len() < cap ==> forall|t: (BenchmarkErrorType, Option<u16>, Seq<char>)| #[trigger]
        m.contains_key(t) ==> exists|i: int|
            0 <= i < te.len() && ((#[trigger] te[i]).error_type@, te[i].status_code,
            te[i].message@) == (crate::sample::etype_name(t.0), t.1, t.2))
}

/// Distinct error types have distinct wire names.
pub proof fn lemma_etype_name_injective(e1: BenchmarkErrorType, e2: BenchmarkErrorType)
    requires
        e1 != e2,
    ensures
        crate::sample::etype_name(e1) != crate::sample::etype_name(e2),
{
    reveal_strlit("CANCELED");
    reveal_strlit("CONNECT_ERROR");
    reveal_strlit("DNS_ERROR");
    reveal_strlit("HTTP_STATUS_4XX");
    reveal_strlit("HTTP_STATUS_5XX");
    reveal_strlit("READ_ERROR");
    reveal_strlit("TIMEOUT");
    reveal_strlit("TLS_ERROR");
    if crate::sample::etype_name(e1) == crate::sample::etype_name(e2) {
        assert(crate::sample::etype_name(e1).len() == crate::sample::etype_name(e2).len());
        assert(crate::sample::etype_name(e1)[0] == crate::sample::etype_name(e2)[0]);
        assert(crate::sample::etype_name(e1)[1] == crate::sample::etype_name(e2)[1]);
        assert(crate::sample::etype_name(e1)[12] == crate::sample::etype_name(e2)[12]);
        assert(false);
    }
}

/// Sort values ascending; the result holds exactly the given values.
pub fn sort_ascending(v: Vec<u64>) -> (r: Vec<u64>)
    ensures
        sorted_u64(r@),
        r@.to_multiset() == v@.to_multiset(),
        r@.len() == v@.len(),
{
    broadcast use vstd::seq_lib::group_to_multiset_ensures;

    let mut rem = v;
    let mut out: Vec<u64> = Vec::new();
    let ghost orig = rem@;
    proof {
        assert(out@.to_multiset().add(rem@.to_multiset()) =~= orig.to_multiset());
    }
    while rem.len() > 0
        invariant
            sorted_u64(out@),
            out@.to_multiset().add(rem@.to_multiset()) == orig.to_multiset(),
            out@.len() + rem@.len() == orig.len(),
            forall|i: int, j: int|
                0 <= i < out@.len() && 0 <= j < rem@.len() ==> (#[trigger] out@[i])
                    <= (#[trigger] rem@[j]),
        decreases rem@.len(),
    {
        let n = rem.len();
        let mut mi: usize = 0;
        let mut i: usize = 1;
        while i < n
            invariant
                0 <= mi < i <= n,
                n == rem@.len(),
                forall|j: int| 0 <= j < i ==> rem@[mi as int] <= (#[trigger] rem@[j]),
            decreases n - i,
        {
            if rem[i] < rem[mi] {
                mi = i;
            }
            i += 1;
        }
        let ghost oldrem = rem@;
        let ghost oldout = out@;
        let x = rem.remove(mi);
        out.push(x);
        proof {
            assert(rem@ =~= oldrem.remove(mi as int));
            assert(out@ =~= oldout.push(x));
            vstd::seq_lib::to_multiset_remove::<u64>(oldrem, mi as int);
            vstd::seq_lib::to_multiset_build::<u64>(oldout, x);
            assert(rem@.to_multiset() == oldrem.to_multiset().remove(x));
            assert(out@.to_multiset() =~= oldout.to_multiset().insert(x));
            broadcast use vstd::multiset::group_multiset_axioms;

            oldrem.to_multiset_ensures();
            assert(oldrem.contains(x));
            assert(oldrem.to_multiset().count(x) > 0);
            assert(out@.to_multiset().add(rem@.to_multiset()) =~= oldout.to_multiset().add(
                oldrem.to_multiset(),
            ));
            assert(forall|j: int|
                0 <= j < rem@.len() ==> exists|jj: int|
                    0 <= jj < oldrem.len() && oldrem[jj] == (#[trigger] rem@[j]));
            assert forall|j: int| 0 <= j < rem@.len() implies x <= (#[trigger] rem@[j]) by {
                if j < mi {
                    assert(rem@[j] == oldrem[j]);
                } else {
                    assert(rem@[j] == oldrem[j + 1]);
                }
            };
        }
    }
    out
}

/// Edges grow strictly along the bucket index.
proof fn lemma_display_edge_increasing(i: int, j: int)
    requires
        0 <= i < j <= DISPLAY_BUCKET_COUNT,
    ensures
        spec_display_edge(i) < spec_display_edge(j),
{
}

/// Emit the per-second points in chronological order.
#[verifier::rlimit(100)]
#[verifier::spinoff_prover]
fn emit_timeseries(
    series: Vec<SeriesAccum>,
    Ghost(m): Ghost<Map<int, SeriesKernel>>,
    Ghost(total): Ghost<int>,
) -> (r: Vec<BenchmarkTimeseriesPoint>)
    requires
        series_entries_match(series@, m),
        series_vec_total(series@) == total,
        forall|i: int| 0 <= i < series@.len() ==> (#[trigger] series@[i]).lats@.len() >= 1,
    ensures
        timeseries_matches(r@, m, total),
{
    let mut out: Vec<BenchmarkTimeseriesPoint> = Vec::new();
    let n = series.len();
    let mut i: usize = 0;
    let ghost sv = series@;
    while i < n
        invariant
            0 <= i <= n,
            n == sv.len(),
            series@ == sv,
            series_entries_match(sv, m),
            forall|j: int| 0 <= j < sv.len() ==> (#[trigger] sv[j]).lats@.len() >= 1,
            out@.len() == i,
            forall|j: int| 0 <= j < i ==> (#[trigger] out@[j]).bucket_ts_ms == sv[j].ts,
            forall|j: int|
                0 <= j < i ==> m.contains_key((#[trigger] out@[j]).bucket_ts_ms as int)
                    && point_matches(out@[j], m[out@[j].bucket_ts_ms as int]),
            ts_sum(out@) == series_vec_total(sv.subrange(0, i as int)),
        decreases n - i,
    {
        let e = &series[i];
        let lats = sort_ascending(e.lats.clone());
        let ln = lats.len();
        proof {
            assert(sv[i as int].lats@.to_multiset().len() == sv[i as int].lats@.len());
            assert(lats@.len() == e.lats@.len());
        }
        let idx128: u128 = (95 * (ln as u128) + 99) / 100;
        let idx: usize = (idx128 as usize) - 1;
        proof {
            assert(1 <= idx128 <= ln);
            assert(idx as int == p95_index(ln as int));
        }
        let p95 = lats[idx];
        let mut sum: u128 = 0;
        let mut j: usize = 0;
        while j < ln
            invariant
                0 <= j <= ln,
                ln == lats@.len(),
                sum as int == sat128(useq_sum(lats@.subrange(0, j as int))),
            decreases ln - j,
        {
            proof {
                assert(lats@.subrange(0, j as int + 1).drop_last() =~= lats@.subrange(
                    0,
                    j as int,
                ));
                assert(lats@.subrange(0, j as int + 1).last() == lats@[j as int]);
            }
            sum = sum.saturating_add(lats[j] as u128);
            j += 1;
        }
        proof {
            assert(lats@.subrange(0, ln as int) =~= lats@);
        }
        let q = sum / (ln as u128);
        let rm = sum % (ln as u128);
        let avg128: u128 = q.saturating_add(
            if 2 * rm >= (ln as u128) {
                1
            } else {
                0
            },
        );
        let avg: u64 = if avg128 > u64::MAX as u128 {
            u64::MAX
        } else {
            avg128 as u64
        };
        proof {
            if q == u128::MAX {
                assert(round_div(sat128(useq_sum(lats@)), lats@.len() as int) >= q);
            }
            assert(avg as int == sat64(round_div(sat128(useq_sum(lats@)), lats@.len() as int)));
        }
        let point = BenchmarkTimeseriesPoint {
            bucket_ts_ms: e.ts,
            rps_success: e.success,
            rps_error: e.error,
            latency_p95_us: p95,
            latency_avg_us: avg,
            bytes_in: e.bytes_in,
            bytes_out: e.bytes_out,
        };
        let ghost oldout = out@;
        out.push(point);
        proof {
            assert(point_matches(point, m[sv[i as int].ts as int])) by {
                let ss = lats@;
                assert(sorted_u64(ss) && ss.to_multiset() == m[sv[i as int].ts as int].lats
                    && ss.len() >= 1 && point.latency_p95_us == ss[p95_index(ss.len() as int)]
                    && point.latency_avg_us as int == sat64(
                    round_div(sat128(useq_sum(ss)), ss.len() as int),
                ));
            };
            assert(out@.drop_last() =~= oldout);
            assert(sv.subrange(0, i as int + 1).drop_last() =~= sv.subrange(0, i as int));
            assert(sv.subrange(0, i as int + 1).last() == sv[i as int]);
        }
        i += 1;
    }
    proof {
        assert(sv.subrange(0, n as int) =~= sv);
        assert forall|ts: int| #[trigger] m.contains_key(ts) implies exists|j: int|
            0 <= j < out@.len() && (#[trigger] out@[j]).bucket_ts_ms as int == ts by {
            let j = choose|j: int| 0 <= j < sv.len() && (#[trigger] sv[j]).ts as int == ts;
            assert(out@[j].bucket_ts_ms as int == ts);
        };
    }
    out
}

/// Emit the non-empty display buckets in ascending order.
#[verifier::rlimit(100)]
#[verifier::spinoff_prover]
fn emit_histogram(disp: &Vec<u64>, Ghost(hist): Ghost<Seq<int>>, Ghost(total): Ghost<int>) -> (r:
    Vec<BenchmarkHistogramBucket>)
    requires
        disp@.len() == DISPLAY_BUCKET_COUNT,
        hist.len() == DISPLAY_BUCKET_COUNT,
        forall|b: int| 0 <= b < disp@.len() ==> (#[trigger] disp@[b]) as int == hist[b],
        prefix_total(hist, DISPLAY_BUCKET_COUNT as int) == total,
    ensures
        histogram_matches(r@, hist, total),
{
    let mut out: Vec<BenchmarkHistogramBucket> = Vec::new();
    let mut b: usize = 0;
    while b < DISPLAY_BUCKET_COUNT
        invariant
            0 <= b <= DISPLAY_BUCKET_COUNT,
            disp@.len() == DISPLAY_BUCKET_COUNT,
            hist.len() == DISPLAY_BUCKET_COUNT,
            forall|c: int| 0 <= c < disp@.len() ==> (#[trigger] disp@[c]) as int == hist[c],
            forall|i: int, j: int|
                0 <= i < j < out@.len() ==> (#[trigger] out@[i]).lower_bound_ms
                    < (#[trigger] out@[j]).lower_bound_ms,
            forall|i: int|
                0 <= i < out@.len() ==> exists|c: int|
                    {
                        &&& 0 <= c < b
                        &&& (#[trigger] out@[i]).lower_bound_ms as int == spec_display_edge(c)
                        &&& out@[i].upper_bound_ms as int == spec_display_edge(c + 1)
                        &&& out@[i].count as int == #[trigger] hist[c]
                        &&& hist[c] > 0
                    },
            forall|i: int|
                0 <= i < out@.len() ==> ((#[trigger] out@[i]).lower_bound_ms as int)
                    < spec_display_edge(b as int),
            forall|c: int|
                0 <= c < b && #[trigger] hist[c] > 0 ==> exists|i: int|
                    0 <= i < out@.len() && (#[trigger] out@[i]).lower_bound_ms as int
                        == spec_display_edge(c),
            hist_sum(out@) == prefix_total(hist, b as int),
        decreases DISPLAY_BUCKET_COUNT - b,
    {
        let count = disp[b];
        if count > 0 {
            let ghost oldout = out@;
            out.push(
                BenchmarkHistogramBucket {
                    lower_bound_ms: display_edge(b),
                    upper_bound_ms: display_edge(b + 1),
                    count,
                },
            );
            proof {
                assert(out@.drop_last() =~= oldout);
                lemma_display_edge_increasing(b as int, b as int + 1);
                assert(forall|i: int| 0 <= i < oldout.len() ==> out@[i] == oldout[i]);
                assert(out@[out@.len() - 1].lower_bound_ms as int == spec_display_edge(b as int));
                assert forall|c: int| 0 <= c < b + 1 && #[trigger] hist[c] > 0 implies exists|
                    i: int,
                |
                    0 <= i < out@.len() && (#[trigger] out@[i]).lower_bound_ms as int
                        == spec_display_edge(c) by {
                    if c == b {
                        assert(out@[out@.len() - 1].lower_bound_ms as int == spec_display_edge(c));
                    } else {
                        let i = choose|i: int|
                            0 <= i < oldout.len() && (#[trigger] oldout[i]).lower_bound_ms as int
                                == spec_display_edge(c);
                        assert(out@[i].lower_bound_ms as int == spec_display_edge(c));
                    }
                };
            }
        } else {
            proof {
                lemma_display_edge_increasing(b as int, b as int + 1);
            }
        }
        b += 1;
    }
    out
}

/// The ranking order of the top-K list: by count descending, ties by
/// ascending name rank.
pub open spec fn acc_ge(a: ErrAccum, b: ErrAccum) -> bool {
    a.count > b.count || (a.count == b.count && crate::sample::etype_rank(a.etype)
        <= crate::sample::etype_rank(b.etype))
}

/// A list of pairwise distinct triples, all in the map and jointly
/// covering it, has exactly as many entries as the map has keys.
proof fn lemma_triples_card(
    s: Seq<ErrAccum>,
    m: Map<(BenchmarkErrorType, Option<u16>, Seq<char>), int>,
)
    requires
        m.dom().finite(),
        forall|i: int, j: int|
            0 <= i < j < s.len() ==> triple_of_acc(#[trigger] s[i]) != triple_of_acc(
                #[trigger] s[j],
            ),
        forall|i: int| 0 <= i < s.len() ==> m.contains_key(triple_of_acc(#[trigger] s[i])),
        forall|t: (BenchmarkErrorType, Option<u16>, Seq<char>)| #[trigger] m.contains_key(t)
            ==> exists|i: int| 0 <= i < s.len() && triple_of_acc(#[trigger] s[i]) == t,
    ensures
        s.len() == m.dom().len(),
    decreases s.len(),
{
    broadcast use vstd::set::group_set_axioms;
    broadcast use vstd::map::group_map_axioms;

    if s.len() == 0 {
        if m.dom().len() != 0 {
            assert(!(m.dom() =~= Set::<(BenchmarkErrorType, Option<u16>, Seq<char>)>::empty()));
            let t = choose|t: (BenchmarkErrorType, Option<u16>, Seq<char>)| m.dom().contains(t);
            assert(m.contains_key(t));
            assert(false);
        }
    } else {
        let t0 = triple_of_acc(s.last());
        let s2 = s.drop_last();
        let m2 = m.remove(t0);
        assert(m.contains_key(t0));
        assert(m2.dom() =~= m.dom().remove(t0));
        assert(forall|i: int| 0 <= i < s2.len() ==> s2[i] == s[i]);
        assert forall|i: int| 0 <= i < s2.len() implies m2.contains_key(
            triple_of_acc(#[trigger] s2[i]),
        ) by {
            assert(triple_of_acc(s[i]) != t0);
        };
        assert forall|t: (BenchmarkErrorType, Option<u16>, Seq<char>)| #[trigger]
            m2.contains_key(t) implies exists|i: int|
            0 <= i < s2.len() && triple_of_acc(#[trigger] s2[i]) == t by {
            let i = choose|i: int| 0 <= i < s.len() && triple_of_acc(#[trigger] s[i]) == t;
            assert(i != s.len() - 1);
            assert(triple_of_acc(s2[i]) == t);
        };
        lemma_triples_card(s2, m2);
    }
}

/// Pick the `cap` most frequent distinct errors, ranked.
#[verifier::rlimit(80)]
fn select_top_errors(
    terrs: Vec<ErrAccum>,
    cap: usize,
    Ghost(m): Ghost<Map<(BenchmarkErrorType, Option<u16>, Seq<char>), int>>,
    Ghost(samples): Ghost<Seq<SampleResult>>,
) -> (r: Vec<BenchmarkErrorSample>)
    requires
        triples_match(terrs@, m, samples),
        m.dom().finite(),
        cap >= 1,
    ensures
        top_errors_match(r@, m, cap as int, samples),
{
    proof {
        lemma_triples_card(terrs@, m);
    }
    let mut rem = terrs;
    let mut out: Vec<ErrAccum> = Vec::new();
    while out.len() < cap && rem.len() > 0
        invariant
            out@.len() <= cap,
            out@.len() + rem@.len() == m.dom().len(),
            forall|i: int, j: int|
                0 <= i < j < rem@.len() ==> triple_of_acc(#[trigger] rem@[i]) != triple_of_acc(
                    #[trigger] rem@[j],
                ),
            forall|i: int|
                0 <= i < rem@.len() ==> m.contains_key(triple_of_acc(#[trigger] rem@[i]))
                    && rem@[i].count as int == m[triple_of_acc(rem@[i])],
            forall|i: int|
                0 <= i < rem@.len() ==> (match first_body(
                    samples,
                    triple_of_acc(#[trigger] rem@[i]),
                ) {
                    Some(b) => rem@[i].body matches Some(sb) && sb@ == b,
                    None => rem@[i].body is None,
                }),
            forall|i: int, j: int|
                0 <= i < j < out@.len() ==> triple_of_acc(#[trigger] out@[i]) != triple_of_acc(
                    #[trigger] out@[j],
                ),
            forall|i: int, j: int|
                0 <= i < out@.len() && 0 <= j < rem@.len() ==> triple_of_acc(#[trigger] out@[i])
                    != triple_of_acc(#[trigger] rem@[j]),
            forall|i: int|
                0 <= i < out@.len() ==> m.contains_key(triple_of_acc(#[trigger] out@[i]))
                    && out@[i].count as int == m[triple_of_acc(out@[i])],
            forall|i: int|
                0 <= i < out@.len() ==> (match first_body(
                    samples,
                    triple_of_acc(#[trigger] out@[i]),
                ) {
                    Some(b) => out@[i].body matches Some(sb) && sb@ == b,
                    None => out@[i].body is None,
                }),
            forall|i: int, j: int| 0 <= i < j < out@.len() ==> acc_ge(#[trigger] out@[i], #[trigger] out@[j]),
            forall|i: int, j: int|
                0 <= i < out@.len() && 0 <= j < rem@.len() ==> acc_ge(
                    #[trigger] out@[i],
                    #[trigger] rem@[j],
                ),
            forall|t: (BenchmarkErrorType, Option<u16>, Seq<char>)| #[trigger] m.contains_key(t)
                ==> (exists|i: int| 0 <= i < out@.len() && triple_of_acc(#[trigger] out@[i]) == t)
                    || (exists|i: int|
                    0 <= i < rem@.len() && triple_of_acc(#[trigger] rem@[i]) == t),
        decreases rem@.len(),
    {
        let n = rem.len();
        let mut mi: usize = 0;
        let mut i: usize = 1;
        while i < n
            invariant
                0 <= mi < i <= n,
                n == rem@.len(),
                forall|j: int| 0 <= j < i ==> acc_ge(rem@[mi as int], #[trigger] rem@[j]),
            decreases n - i,
        {
            let better = rem[i].count > rem[mi].count || (rem[i].count == rem[mi].count
                && crate::sample::error_type_rank(rem[i].etype) < crate::sample::error_type_rank(
                rem[mi].etype,
            ));
            if better {
                mi = i;
            }
            i += 1;
        }
        let ghost oldrem = rem@;
        let ghost oldout = out@;
        let x = rem.remove(mi);
        out.push(x);
        proof {
            assert(rem@ =~= oldrem.remove(mi as int));
            assert(out@ =~= oldout.push(x));
            assert(forall|i: int| 0 <= i < oldout.len() ==> out@[i] == oldout[i]);
            assert(forall|j: int| 0 <= j < mi ==> rem@[j] == oldrem[j]);
            assert(forall|j: int| mi <= j < rem@.len() ==> rem@[j] == oldrem[j + 1]);
            assert forall|t: (BenchmarkErrorType, Option<u16>, Seq<char>)| #[trigger]
                m.contains_key(t) implies (exists|i: int|
                0 <= i < out@.len() && triple_of_acc(#[trigger] out@[i]) == t) || (exists|i: int|
                0 <= i < rem@.len() && triple_of_acc(#[trigger] rem@[i]) == t) by {
                if exists|i: int| 0 <= i < oldout.len() && triple_of_acc(#[trigger] oldout[i]) == t {
                    let i = choose|i: int|
                        0 <= i < oldout.len() && triple_of_acc(#[trigger] oldout[i]) == t;
                    assert(triple_of_acc(out@[i]) == t);
                } else {
                    let i = choose|i: int|
                        0 <= i < oldrem.len() && triple_of_acc(#[trigger] oldrem[i]) == t;
                    if i == mi {
                        assert(triple_of_acc(out@[out@.len() - 1]) == t);
                    } else if i < mi {
                        assert(triple_of_acc(rem@[i]) == t);
                    } else {
                        assert(triple_of_acc(rem@[i - 1]) == t);
                    }
                }
            };
        }
    }
    proof {
        if rem@.len() == 0 {
            assert(out@.len() == m.dom().len());
        } else {
            assert(out@.len() == cap);
            assert(m.dom().len() >= cap);
        }
        assert(out@.len() as int == (if m.dom().len() < cap as int {
            m.dom().len() as int
        } else {
            cap as int
        }));
    }
    let ghost outseq = out@;
    let mut r: Vec<BenchmarkErrorSample> = Vec::new();
    let n = out.len();
    let mut i: usize = 0;
    while i < n
        invariant
            0 <= i <= n,
            n == out@.len(),
            out@ == outseq,
            forall|j: int|
                0 <= j < outseq.len() ==> m.contains_key(triple_of_acc(#[trigger] outseq[j]))
                    && outseq[j].count as int == m[triple_of_acc(outseq[j])],
            forall|j: int|
                0 <= j < outseq.len() ==> (match first_body(
                    samples,
                    triple_of_acc(#[trigger] outseq[j]),
                ) {
                    Some(b) => outseq[j].body matches Some(sb) && sb@ == b,
                    None => outseq[j].body is None,
                }),
            r@.len() == i,
            forall|j: int|
                0 <= j < i ==> {
                    let e = #[trigger] r@[j];
                    &&& e.error_type@ == crate::sample::etype_name(outseq[j].etype)
                    &&& e.status_code == outseq[j].status
                    &&& e.message@ == outseq[j].message@
                    &&& e.count == outseq[j].count
                    &&& (match outseq[j].body {
                        Some(b) => e.sample_body matches Some(sb) && sb@ == b@,
                        None => e.sample_body is None,
                    })
                },
        decreases n - i,
    {
        let e = &out[i];
        let entry = BenchmarkErrorSample {
            error_type: crate::sample::error_type_name(e.etype).to_owned(),
            status_code: e.status,
            message: e.message.clone(),
            count: e.count,
            sample_body: match &e.body {
                Some(b) => Some(b.clone()),
                None => None,
            },
        };
        r.push(entry);
        i += 1;
    }
    proof {
        assert forall|j: int| 0 <= j < r@.len() implies entry_valid(#[trigger] r@[j], m, samples)
            by {
            lemma_name_roundtrip(outseq[j].etype);
            let t = triple_of_acc(outseq[j]);
            assert(entry_matches_triple(r@[j], t, m, samples));
        };
        assert forall|i: int, j: int| 0 <= i < j < r@.len() implies (#[trigger] r@[i]).count
            > (#[trigger] r@[j]).count || (r@[i].count == r@[j].count && crate::sample::lex_le(
            r@[i].error_type@,
            r@[j].error_type@,
        )) by {
            assert(acc_ge(outseq[i], outseq[j]));
            if outseq[i].count == outseq[j].count {
                crate::sample::lemma_rank_orders_names(outseq[i].etype, outseq[j].etype);
            }
        };
        assert forall|i: int, j: int| 0 <= i < j < r@.len() implies ((#[trigger] r@[i]).error_type@,
        r@[i].status_code, r@[i].message@) != ((#[trigger] r@[j]).error_type@, r@[j].status_code,
        r@[j].message@) by {
            assert(triple_of_acc(outseq[i]) != triple_of_acc(outseq[j]));
            if outseq[i].etype != outseq[j].etype {
                lemma_etype_name_injective(outseq[i].etype, outseq[j].etype);
            }
        };
        if r@.len() < cap {
            assert(rem@.len() == 0);
            assert forall|t: (BenchmarkErrorType, Option<u16>, Seq<char>)| #[trigger]
                m.contains_key(t) implies exists|i: int|
                0 <= i < r@.len() && ((#[trigger] r@[i]).error_type@, r@[i].status_code,
                r@[i].message@) == (crate::sample::etype_name(t.0), t.1, t.2) by {
                assert((exists|i: int|
                    0 <= i < outseq.len() && triple_of_acc(#[trigger] outseq[i]) == t) || (exists|
                    i: int,
                |
                    0 <= i < rem@.len() && triple_of_acc(#[trigger] rem@[i]) == t));
                let i = choose|i: int|
                    0 <= i < outseq.len() && triple_of_acc(#[trigger] outseq[i]) == t;
                assert((r@[i].error_type@, r@[i].status_code, r@[i].message@) == (
                    crate::sample::etype_name(t.0),
                    t.1,
                    t.2,
                ));
            };
        }
    }
    r
}

/// The status-count report entries agree with the map `m`.
pub open spec fn status_counts_match(s: Seq<StatusCount>, m: Map<u16, int>) -> bool {
    &&& (forall|i: int, j: int|
        0 <= i < j < s.len() ==> (#[trigger] s[i]).status < (#[trigger] s[j]).status)
    &&& (forall|i: int|
        0 <= i < s.len() ==> m.contains_key((#[trigger] s[i]).status) && s[i].count as int
            == m[s[i].status])
    &&& (forall|c: u16| #[trigger] m.contains_key(c) ==> exists|i: int|
        0 <= i < s.len() && (#[trigger] s[i]).status == c)
}

/// The error-type-count report entries agree with the map `m`.
pub open spec fn etype_counts_match(s: Seq<ErrorTypeCount>, m: Map<BenchmarkErrorType, int>) -> bool {
    &&& (forall|i: int, j: int|
        0 <= i < j < s.len() ==> crate::sample::etype_rank((#[trigger] s[i]).error_type)
            < crate::sample::etype_rank((#[trigger] s[j]).error_type))
    &&& (forall|i: int|
        0 <= i < s.len() ==> m.contains_key((#[trigger] s[i]).error_type) && s[i].count as int
            == m[s[i].error_type])
    &&& (forall|e: BenchmarkErrorType| #[trigger] m.contains_key(e) ==> exists|i: int|
        0 <= i < s.len() && (#[trigger] s[i]).error_type == e)
}

/// The elapsed wall-clock of a phase, floored at one millisecond.
pub open spec fn spec_elapsed_ms(started: int, finished: int) -> int {
    let d = if finished >= started {
        finished - started
    } else {
        0
    };
    if d < 1 {
        1
    } else {
        d
    }
}

/// The latency figures a run reports, as functions of the accumulated
/// state; all zero for an empty run.
pub open spec fn latency_matches(lat: BenchmarkLatencyMetrics, k: AggKernel) -> bool {
    if k.total == 0 {
        lat.min_us == 0 && lat.avg_us == 0 && lat.max_us == 0 && lat.stddev_us == 0 && lat.p50_us
            == 0 && lat.p90_us == 0 && lat.p95_us == 0 && lat.p99_us == 0
    } else {
        let n = k.total;
        let sm = sat128(k.lat_sum);
        let sq = sat128(k.lat_sumsq);
        &&& lat.min_us as int == k.lat_min
        &&& lat.max_us as int == k.lat_max
        &&& lat.avg_us as int == sat64(round_div(sm, n))
        &&& (n < 2 ==> lat.stddev_us == 0)
        &&& ((n >= 2 && (n * sq > u128::MAX || sm * sm > u128::MAX)) ==> lat.stddev_us
            == u64::MAX)
        &&& ((n >= 2 && n * sq <= u128::MAX && sm * sm <= u128::MAX) ==> {
            let variance = (n * sq - sm * sm) / (n * (n - 1));
            &&& (n * sq >= sm * sm ==> lat.stddev_us as int == spec_isqrt(variance) && (
            lat.stddev_us as int) * (lat.stddev_us as int) <= variance < (lat.stddev_us as int + 1)
                * (lat.stddev_us as int + 1))
            &&& (n * sq < sm * sm ==> lat.stddev_us == 0)
        })
        &&& lat.p50_us as int == quantile_value(
            k.qcounts,
            LatencyHistogram::spec_target(n, 50),
            k.qmax,
        )
        &&& lat.p90_us as int == quantile_value(
            k.qcounts,
            LatencyHistogram::spec_target(n, 90),
            k.qmax,
        )
        &&& lat.p95_us as int == quantile_value(
            k.qcounts,
            LatencyHistogram::spec_target(n, 95),
            k.qmax,
        )
        &&& lat.p99_us as int == quantile_value(
            k.qcounts,
            LatencyHistogram::spec_target(n, 99),
            k.qmax,
        )
        &&& lat.p50_us <= lat.p90_us <= lat.p95_us <= lat.p99_us <= lat.max_us
    }
}

/// The whole summary, as a function of the accumulated state.
pub open spec fn summary_matches(
    sm: BenchmarkSummaryMetrics,
    k: AggKernel,
    started: int,
    finished: int,
) -> bool {
    &&& sm.total_requests as int == k.total
    &&& sm.success_count as int == k.success
    &&& sm.error_count as int == k.error
    &&& sm.error_rate as int == (if k.total == 0 {
        0int
    } else {
        round_div(k.error * 100000, k.total)
    })
    &&& sm.rps_avg as int == (if k.total == 0 {
        0int
    } else {
        sat64(round_div(k.total * 1000000, spec_elapsed_ms(started, finished)))
    })
    &&& (k.total == 0 ==> sm.rps_peak == 0)
    &&& (k.total > 0 ==> (exists|ts: int| #[trigger]
        k.series.contains_key(ts) && sm.rps_peak as int == k.series[ts].success
            + k.series[ts].error) && (forall|ts: int| #[trigger]
        k.series.contains_key(ts) ==> k.series[ts].success + k.series[ts].error
            <= sm.rps_peak as int))
    &&& sm.bytes_in as int == sat64(k.bytes_in)
    &&& sm.bytes_out as int == sat64(k.bytes_out)
    &&& latency_matches(sm.latency, k)
    &&& status_counts_match(sm.status_code_counts@, k.status_counts)
    &&& etype_counts_match(sm.error_type_counts@, k.etype_counts)
}

/// Everything `aggregate_samples` promises, relative to the accumulated
/// state of its input.
pub open spec fn aggregated_matches(
    r: BenchmarkAggregatedMetrics,
    k: AggKernel,
    started: int,
    finished: int,
    cap: int,
    samples: Seq<SampleResult>,
) -> bool {
    &&& summary_matches(r.summary, k, started, finished)
    &&& timeseries_matches(r.timeseries@, k.series, k.total)
    &&& histogram_matches(r.histogram@, k.hist, k.total)
    &&& top_errors_match(r.top_errors@, k.triple_counts, cap, samples)
}

/// Turn the status-count accumulator into report entries.
fn convert_status_counts(src: &Vec<(u16, u64)>, Ghost(m): Ghost<Map<u16, int>>) -> (r: Vec<
    StatusCount,
>)
    requires
        status_entries_match(src@, m),
    ensures
        status_counts_match(r@, m),
{
    let mut r: Vec<StatusCount> = Vec::new();
    let n = src.len();
    let mut i: usize = 0;
    while i < n
        invariant
            0 <= i <= n,
            n == src@.len(),
            status_entries_match(src@, m),
            r@.len() == i,
            forall|j: int|
                0 <= j < i ==> (#[trigger] r@[j]).status == src@[j].0 && r@[j].count == src@[j].1,
        decreases n - i,
    {
        r.push(StatusCount { status: src[i].0, count: src[i].1 });
        i += 1;
    }
    proof {
        assert forall|c: u16| #[trigger] m.contains_key(c) implies exists|j: int|
            0 <= j < r@.len() && (#[trigger] r@[j]).status == c by {
            let j = choose|j: int| 0 <= j < src@.len() && (#[trigger] src@[j]).0 == c;
            assert(r@[j].status == c);
        };
    }
    r
}

/// Turn the error-type-count accumulator into report entries.
fn convert_etype_counts(
    src: &Vec<(BenchmarkErrorType, u64)>,
    Ghost(m): Ghost<Map<BenchmarkErrorType, int>>,
) -> (r: Vec<ErrorTypeCount>)
    requires
        etype_entries_match(src@, m),
    ensures
        etype_counts_match(r@, m),
{
    let mut r: Vec<ErrorTypeCount> = Vec::new();
    let n = src.len();
    let mut i: usize = 0;
    while i < n
        invariant
            0 <= i <= n,
            n == src@.len(),
            etype_entries_match(src@, m),
            r@.len() == i,
            forall|j: int|
                0 <= j < i ==> (#[trigger] r@[j]).error_type == src@[j].0 && r@[j].count
                    == src@[j].1,
        decreases n - i,
    {
        r.push(ErrorTypeCount { error_type: src[i].0, count: src[i].1 });
        i += 1;
    }
    proof {
        assert forall|e: BenchmarkErrorType| #[trigger] m.contains_key(e) implies exists|j: int|
            0 <= j < r@.len() && (#[trigger] r@[j]).error_type == e by {
            let j = choose|j: int| 0 <= j < src@.len() && (#[trigger] src@[j]).0 == e;
            assert(r@[j].error_type == e);
        };
    }
    r
}

/// Reduce the classified samples of a measurement phase into the final
/// aggregated metrics. Cancelled samples contribute nothing. Every summary
/// and histogram figure is a function of the accumulated state
/// `agg_kernel(samples@)` alone, which depends only on the multiset of
/// samples; see `lemma_agg_kernel_permutation`.
#[verifier::rlimit(100)]
#[verifier::spinoff_prover]
pub fn aggregate_samples(
    samples: &Vec<SampleResult>,
    started_at_ms: u64,
    finished_at_ms: u64,
    top_k_errors: usize,
) -> (r: BenchmarkAggregatedMetrics)
    ensures
        aggregated_matches(
            r,
            agg_kernel(samples@),
            started_at_ms as int,
            finished_at_ms as int,
            if top_k_errors < 1 {
                1int
            } else {
                top_k_errors as int
            },
            samples@,
        ),
        r.summary.total_requests as int == r.summary.success_count as int
            + r.summary.error_count as int,
{
    let n = samples.len();
    let mut total: u64 = 0;
    let mut success: u64 = 0;
    let mut error: u64 = 0;
    let mut bytes_in: u64 = 0;
    let mut bytes_out: u64 = 0;
    let mut stats = RunningStats::new();
    let mut qh = LatencyHistogram::new();
    let mut disp: Vec<u64> = vec![0u64; DISPLAY_BUCKET_COUNT];
    let mut scounts: Vec<(u16, u64)> = Vec::new();
    let mut ecounts: Vec<(BenchmarkErrorType, u64)> = Vec::new();
    let mut series: Vec<SeriesAccum> = Vec::new();
    let mut terrs: Vec<ErrAccum> = Vec::new();
    let ghost mut gk = empty_kernel();
    proof {
        assert(samples@.subrange(0, 0) =~= Seq::<SampleResult>::empty());
        assert(agg_kernel(samples@.subrange(0, 0)) == empty_kernel());
        assert(qh.spec_counts() =~= empty_kernel().qcounts);
        assert(forall|b: int| 0 <= b < disp@.len() ==> (#[trigger] disp@[b]) as int == gk.hist[b]);
        assert(first_body(samples@.subrange(0, 0), (BenchmarkErrorType::Timeout, None::<u16>, Seq::<char>::empty())) is None);
    }
    let mut i: usize = 0;
    while i < n
        invariant
            0 <= i <= n,
            n == samples@.len(),
            gk == agg_kernel(samples@.subrange(0, i as int)),
            total as int == gk.total,
            success as int == gk.success,
            error as int == gk.error,
            bytes_in as int == sat64(gk.bytes_in),
            bytes_out as int == sat64(gk.bytes_out),
            stats.matches(gk),
            qh.wf(),
            qh.spec_total() == gk.total,
            qh.spec_counts() == gk.qcounts,
            qh.spec_max() == gk.qmax,
            disp@.len() == DISPLAY_BUCKET_COUNT,
            forall|b: int| 0 <= b < disp@.len() ==> (#[trigger] disp@[b]) as int == gk.hist[b],
            status_entries_match(scounts@, gk.status_counts),
            etype_entries_match(ecounts@, gk.etype_counts),
            series_entries_match(series@, gk.series),
            series_vec_total(series@) == gk.total,
            triples_match(terrs@, gk.triple_counts, samples@.subrange(0, i as int)),
        decreases n - i,
    {
        let ghost pre = samples@.subrange(0, i as int);
        proof {
            lemma_kernel_inv(pre);
            assert(samples@.subrange(0, i as int + 1) =~= pre.push(samples@[i as int]));
            lemma_agg_push(pre, samples@[i as int]);
        }
        let s = &samples[i];
        if s.cancelled {
            proof {
                lemma_triples_skip(terrs@, gk.triple_counts, pre, samples@[i as int]);
                gk = step(samples@[i as int], gk);
            }
        } else {
            proof {
                assert(gk.total <= pre.len());
            }
            total = total + 1;
            if s.success {
                success = success + 1;
            } else {
                error = error + 1;
            }
            bytes_in = bytes_in.saturating_add(s.bytes_in);
            bytes_out = bytes_out.saturating_add(s.bytes_out);
            stats.add(s.latency_us);
            qh.record(s.latency_us);
            let di = display_bucket_index(s.latency_us);
            let dc = disp[di];
            proof {
                assert(gk.hist[di as int] <= gk.total);
            }
            disp[di] = dc + 1;
            if let Some(code) = s.status_code {
                proof {
                    assert forall|j: int| 0 <= j < scounts@.len() implies (#[trigger] scounts@[j]).1
                        < u64::MAX by {
                        assert(gk.status_counts[scounts@[j].0] <= gk.total);
                    };
                }
                bump_status_vec(&mut scounts, code, Ghost(gk.status_counts));
            }
            match s.error_type {
                Some(e) => {
                    proof {
                        assert forall|j: int| 0 <= j < ecounts@.len() implies (
                        #[trigger] ecounts@[j]).1 < u64::MAX by {
                            assert(gk.etype_counts[ecounts@[j].0] <= gk.total);
                        };
                        assert forall|j: int| 0 <= j < terrs@.len() implies (#[trigger] terrs@[j]).count
                            < u64::MAX by {
                            assert(gk.triple_counts[triple_of_acc(terrs@[j])] <= gk.total);
                        };
                    }
                    bump_etype_vec(&mut ecounts, e, Ghost(gk.etype_counts));
                    bump_triples_vec(&mut terrs, s, Ghost(gk.triple_counts), Ghost(pre));
                },
                None => {
                    proof {
                        lemma_triples_skip(terrs@, gk.triple_counts, pre, samples@[i as int]);
                    }
                },
            }
            proof {
                assert forall|j: int| 0 <= j < series@.len() implies (#[trigger] series@[j]).success
                    < u64::MAX && series@[j].error < u64::MAX && series@[j].lats@.len()
                    < u64::MAX by {
                    assert(series_inv(gk.series[series@[j].ts as int], gk.total));
                };
            }
            bump_series_vec(&mut series, s, Ghost(gk.series));
            proof {
                let s0 = samples@[i as int];
                gk = step(s0, gk);
                let oldk = agg_kernel(pre);
                assert(gk == step(s0, oldk));
                assert(capped_latency(s0.latency_us as int) == LatencyHistogram::capped(
                    s0.latency_us,
                ));
                crate::qhist::lemma_qbucket_in_range(capped_latency(s0.latency_us as int));
                assert(qh.spec_counts() =~= gk.qcounts);
                assert(forall|b: int|
                    0 <= b < disp@.len() ==> (#[trigger] disp@[b]) as int == gk.hist[b]);
            }
        }
        i += 1;
    }
    proof {
        assert(samples@.subrange(0, n as int) =~= samples@);
        lemma_kernel_inv(samples@);
        assert(samples@.len() <= usize::MAX);
        assert(gk.total <= u64::MAX);
    }
    let cap: usize = if top_k_errors < 1 {
        1
    } else {
        top_k_errors
    };

    let error_rate: u64 = if total == 0 {
        0
    } else {
        let a: u128 = (error as u128) * 100000;
        let b: u128 = total as u128;
        proof {
            assert(a / b <= 100000) by (nonlinear_arith)
                requires
                    b >= 1,
                    a <= b * 100000,
            ;
        }
        let q = a / b;
        let rm = a % b;
        (q + (if 2 * rm >= b {
            1
        } else {
            0
        })) as u64
    };

    let d: u64 = if finished_at_ms >= started_at_ms {
        finished_at_ms - started_at_ms
    } else {
        0
    };
    let elapsed: u64 = if d < 1 {
        1
    } else {
        d
    };
    let rps_avg: u64 = if total == 0 {
        0
    } else {
        let a: u128 = (total as u128) * 1000000;
        let b: u128 = elapsed as u128;
        let q = a / b;
        let rm = a % b;
        let v = q + (if 2 * rm >= b {
            1
        } else {
            0
        });
        if v > u64::MAX as u128 {
            u64::MAX
        } else {
            v as u64
        }
    };

    let mut rps_peak: u64 = 0;
    let sn = series.len();
    let mut si: usize = 0;
    while si < sn
        invariant
            0 <= si <= sn,
            sn == series@.len(),
            series_entries_match(series@, gk.series),
            kernel_inv(gk, samples@.len() as int),
            gk.total <= u64::MAX,
            forall|j: int|
                0 <= j < si ==> (#[trigger] series@[j]).success + series@[j].error
                    <= rps_peak as int,
            rps_peak == 0 || exists|j: int|
                0 <= j < si && (#[trigger] series@[j]).success + series@[j].error
                    == rps_peak as int,
        decreases sn - si,
    {
        proof {
            assert(series_entry_matches(series@[si as int], gk.series[series@[si as int].ts as int]));
            assert(series_inv(gk.series[series@[si as int].ts as int], gk.total));
            assert(series@[si as int].success + series@[si as int].error <= gk.total);
            assert(gk.total <= u64::MAX);
        }
        let rate = series[si].success + series[si].error;
        if rate > rps_peak {
            rps_peak = rate;
        }
        si += 1;
    }
    proof {
        if gk.total > 0 {
            assert(series_vec_total(series@) > 0);
            assert(series@.len() > 0) by {
                if series@.len() == 0 {
                    assert(series_vec_total(series@) == 0);
                }
            };
            assert(rps_peak > 0) by {
                assert(series_inv(gk.series[series@[0].ts as int], gk.total));
                assert(series@[0].success + series@[0].error >= 1);
            };
            assert forall|ts: int| #[trigger] gk.series.contains_key(ts) implies gk.series[ts].success
                + gk.series[ts].error <= rps_peak as int by {
                let j = choose|j: int|
                    0 <= j < series@.len() && (#[trigger] series@[j]).ts as int == ts;
                assert(series@[j].success + series@[j].error <= rps_peak as int);
            };
            let j = choose|j: int|
                0 <= j < series@.len() && (#[trigger] series@[j]).success + series@[j].error
                    == rps_peak as int;
            assert(gk.series.contains_key(series@[j].ts as int));
        }
    }

    let latency = if total == 0 {
        BenchmarkLatencyMetrics::default()
    } else {
        let q = stats.sum / (stats.count as u128);
        let rm = stats.sum % (stats.count as u128);
        let avg128 = q.saturating_add(
            if 2 * rm >= (stats.count as u128) {
                1
            } else {
                0
            },
        );
        let avg: u64 = if avg128 > u64::MAX as u128 {
            u64::MAX
        } else {
            avg128 as u64
        };
        proof {
            if q == u128::MAX {
                assert(round_div(sat128(gk.lat_sum), gk.total) >= q);
            }
        }
        let p50 = qh.value_at_percentile(50);
        let p90 = qh.value_at_percentile(90);
        let p95 = qh.value_at_percentile(95);
        let p99 = qh.value_at_percentile(99);
        proof {
            let tt = gk.total;
            assert(tt * 50 <= tt * 90 <= tt * 95 <= tt * 99) by (nonlinear_arith)
                requires
                    tt >= 0,
            ;
            assert((tt * 50 + 99) / 100 <= (tt * 90 + 99) / 100 <= (tt * 95 + 99) / 100 <= (tt * 99
                + 99) / 100) by (nonlinear_arith)
                requires
                    tt * 50 <= tt * 90 <= tt * 95 <= tt * 99,
            ;
            crate::qhist::lemma_quantile_value_monotone(
                gk.qcounts,
                LatencyHistogram::spec_target(tt, 50),
                LatencyHistogram::spec_target(tt, 90),
                gk.qmax,
            );
            crate::qhist::lemma_quantile_value_monotone(
                gk.qcounts,
                LatencyHistogram::spec_target(tt, 90),
                LatencyHistogram::spec_target(tt, 95),
                gk.qmax,
            );
            crate::qhist::lemma_quantile_value_monotone(
                gk.qcounts,
                LatencyHistogram::spec_target(tt, 95),
                LatencyHistogram::spec_target(tt, 99),
                gk.qmax,
            );
        }
        BenchmarkLatencyMetrics {
            min_us: stats.min,
            avg_us: avg,
            max_us: stats.max,
            stddev_us: stddev_from_sums(stats.count, stats.sum, stats.sumsq),
            p50_us: p50,
            p90_us: p90,
            p95_us: p95,
            p99_us: p99,
        }
    };

    let status_code_counts = convert_status_counts(&scounts, Ghost(gk.status_counts));
    let error_type_counts = convert_etype_counts(&ecounts, Ghost(gk.etype_counts));

    proof {
        assert forall|j: int| 0 <= j < series@.len() implies (#[trigger] series@[j]).lats@.len()
            >= 1 by {
            assert(series_inv(gk.series[series@[j].ts as int], gk.total));
        };
    }
    let timeseries = emit_timeseries(series, Ghost(gk.series), Ghost(gk.total));
    let histogram = emit_histogram(&disp, Ghost(gk.hist), Ghost(gk.total));
    let top_errors = select_top_errors(terrs, cap, Ghost(gk.triple_counts), Ghost(samples@));

    BenchmarkAggregatedMetrics {
        summary: BenchmarkSummaryMetrics {
            total_requests: total,
            success_count: success,
            error_count: error,
            error_rate,
            rps_avg,
            rps_peak,
            bytes_in,
            bytes_out,
            latency,
            status_code_counts,
            error_type_counts,
        },
        timeseries,
        histogram,
        top_errors,
    }
}

/// Two summaries reporting the same accumulated state over the same phase
/// window agree on every scalar figure and every latency figure: together
/// with `lemma_agg_kernel_permutation`, aggregating the same samples in
/// any order yields the same summary numbers.
#[verifier::rlimit(100)]
#[verifier::spinoff_prover]
pub proof fn lemma_summary_unique(
    sm1: BenchmarkSummaryMetrics,
    sm2: BenchmarkSummaryMetrics,
    k: AggKernel,
    started: int,
    finished: int,
)
    requires
        summary_matches(sm1, k, started, finished),
        summary_matches(sm2, k, started, finished),
    ensures
        sm1.total_requests == sm2.total_requests,
        sm1.success_count == sm2.success_count,
        sm1.error_count == sm2.error_count,
        sm1.error_rate == sm2.error_rate,
        sm1.rps_avg == sm2.rps_avg,
        sm1.rps_peak == sm2.rps_peak,
        sm1.bytes_in == sm2.bytes_in,
        sm1.bytes_out == sm2.bytes_out,
        sm1.latency == sm2.latency,
{
    if k.total > 0 {
        assert(sm1.rps_peak as int <= sm2.rps_peak as int);
        assert(sm2.rps_peak as int <= sm1.rps_peak as int);
    }
}

} // verus!
