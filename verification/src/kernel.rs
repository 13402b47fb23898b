//! The mathematical model of the aggregation pass: a fold over the sample
//! list with a commutative step, so that everything the summary and the
//! histogram report is a function of the multiset of samples.

use vstd::prelude::*;
use vstd::seq_lib::*;
use vstd::multiset::Multiset;
use crate::benchmark_types::{BenchmarkErrorType, SampleResult};
use crate::qhist::{qbucket, prefix_total, Q_BUCKET_COUNT, LATENCY_CAP_US};

verus! {

/// Number of fixed-edge display buckets.
pub const DISPLAY_BUCKET_COUNT: usize = 17;

/// The display bucket of a latency (in microseconds): fixed edges at
/// 0, 1, 2, 5, 10, 20, 50, 100, 200, 500, 1000, 2000, 5000, 10000, 20000,
/// 30000, 45000 and 60000 milliseconds; anything outside the edges falls
/// into the last bucket.
pub open spec fn display_bucket(l: int) -> int {
    if l < 1000 { 0 } else if l < 2000 { 1 } else if l < 5000 { 2 }
    else if l < 10000 { 3 } else if l < 20000 { 4 } else if l < 50000 { 5 }
    else if l < 100000 { 6 } else if l < 200000 { 7 } else if l < 500000 { 8 }
    else if l < 1000000 { 9 } else if l < 2000000 { 10 } else if l < 5000000 { 11 }
    else if l < 10000000 { 12 } else if l < 20000000 { 13 } else if l < 30000000 { 14 }
    else if l < 45000000 { 15 } else { 16 }
}

/// See `display_bucket`.
pub fn display_bucket_index(l: u64) -> (r: usize)
    ensures
        r as int == display_bucket(l as int),
        r < DISPLAY_BUCKET_COUNT,
{
    if l < 1000 { 0 } else if l < 2000 { 1 } else if l < 5000 { 2 }
    else if l < 10000 { 3 } else if l < 20000 { 4 } else if l < 50000 { 5 }
    else if l < 100000 { 6 } else if l < 200000 { 7 } else if l < 500000 { 8 }
    else if l < 1000000 { 9 } else if l < 2000000 { 10 } else if l < 5000000 { 11 }
    else if l < 10000000 { 12 } else if l < 20000000 { 13 } else if l < 30000000 { 14 }
    else if l < 45000000 { 15 } else { 16 }
}

/// The lower edge of a display bucket, in milliseconds.
pub open spec fn spec_display_edge(i: int) -> int {
    if i <= 0 { 0 } else if i == 1 { 1 } else if i == 2 { 2 } else if i == 3 { 5 }
    else if i == 4 { 10 } else if i == 5 { 20 } else if i == 6 { 50 } else if i == 7 { 100 }
    else if i == 8 { 200 } else if i == 9 { 500 } else if i == 10 { 1000 }
    else if i == 11 { 2000 } else if i == 12 { 5000 } else if i == 13 { 10000 }
    else if i == 14 { 20000 } else if i == 15 { 30000 } else if i == 16 { 45000 }
    else { 60000 }
}

/// See `spec_display_edge`.
pub fn display_edge(i: usize) -> (r: u64)
    requires
        i <= DISPLAY_BUCKET_COUNT,
    ensures
        r as int == spec_display_edge(i as int),
{
    if i == 0 { 0 } else if i == 1 { 1 } else if i == 2 { 2 } else if i == 3 { 5 }
    else if i == 4 { 10 } else if i == 5 { 20 } else if i == 6 { 50 } else if i == 7 { 100 }
    else if i == 8 { 200 } else if i == 9 { 500 } else if i == 10 { 1000 }
    else if i == 11 { 2000 } else if i == 12 { 5000 } else if i == 13 { 10000 }
    else if i == 14 { 20000 } else if i == 15 { 30000 } else if i == 16 { 45000 }
    else { 60000 }
}

/// What a latency contributes to the percentile structure.
pub open spec fn capped_latency(l: int) -> int {
    if l < LATENCY_CAP_US { l } else { LATENCY_CAP_US as int }
}

/// The message under which error samples are deduplicated and reported.
pub open spec fn sample_message(s: SampleResult) -> Seq<char> {
    match s.error_message {
        Some(m) => m@,
        None => "Unknown benchmark error"@,
    }
}

/// The identity of a distinct error: its type, status code and message.
pub open spec fn sample_triple(s: SampleResult) -> (BenchmarkErrorType, Option<u16>, Seq<char>) {
    (s.error_type->0, s.status_code, sample_message(s))
}

/// One second of accumulated outcomes.
#[verifier::ext_equal]
pub ghost struct SeriesKernel {
    pub success: int,
    pub error: int,
    pub bytes_in: int,
    pub bytes_out: int,
    pub lats: Multiset<u64>,
}

/// Everything the aggregation pass accumulates.
#[verifier::ext_equal]
pub ghost struct AggKernel {
    pub total: int,
    pub success: int,
    pub error: int,
    pub bytes_in: int,
    pub bytes_out: int,
    pub lat_sum: int,
    pub lat_sumsq: int,
    pub lat_min: int,
    pub lat_max: int,
    pub hist: Seq<int>,
    pub qcounts: Seq<int>,
    pub qmax: int,
    pub series: Map<int, SeriesKernel>,
    pub status_counts: Map<u16, int>,
    pub etype_counts: Map<BenchmarkErrorType, int>,
    pub triple_counts: Map<(BenchmarkErrorType, Option<u16>, Seq<char>), int>,
}

pub open spec fn empty_series() -> SeriesKernel {
    SeriesKernel { success: 0, error: 0, bytes_in: 0, bytes_out: 0, lats: Multiset::empty() }
}

pub open spec fn empty_kernel() -> AggKernel {
    AggKernel {
        total: 0,
        success: 0,
        error: 0,
        bytes_in: 0,
        bytes_out: 0,
        lat_sum: 0,
        lat_sumsq: 0,
        lat_min: 0x1_0000_0000_0000_0000,
        lat_max: -1,
        hist: Seq::new(DISPLAY_BUCKET_COUNT as nat, |b: int| 0int),
        qcounts: Seq::new(Q_BUCKET_COUNT as nat, |b: int| 0int),
        qmax: 0,
        series: Map::empty(),
        status_counts: Map::empty(),
        etype_counts: Map::empty(),
        triple_counts: Map::empty(),
    }
}

/// One more occurrence of a key.
pub open spec fn bump<K>(m: Map<K, int>, k: K) -> Map<K, int> {
    m.insert(k, (if m.contains_key(k) { m[k] } else { 0 }) + 1)
}

/// What one sample adds to its second's bucket.
pub open spec fn bump_series(b: SeriesKernel, s: SampleResult) -> SeriesKernel {
    SeriesKernel {
        success: b.success + (if s.success { 1int } else { 0 }),
        error: b.error + (if s.success { 0int } else { 1 }),
        bytes_in: b.bytes_in + s.bytes_in,
        bytes_out: b.bytes_out + s.bytes_out,
        lats: b.lats.insert(s.latency_us),
    }
}

/// The second a sample falls into (milliseconds, rounded down).
pub open spec fn series_key(s: SampleResult) -> int {
    (s.timestamp_ms as int / 1000) * 1000
}

/// What one sample adds to the accumulated state. A cancelled sample adds
/// nothing at all.
pub open spec fn step(s: SampleResult, k: AggKernel) -> AggKernel {
    if s.cancelled {
        k
    } else {
        let l = s.latency_us as int;
        let cl = capped_latency(l);
        let ts = series_key(s);
        let base = if k.series.contains_key(ts) {
            k.series[ts]
        } else {
            empty_series()
        };
        AggKernel {
            total: k.total + 1,
            success: k.success + (if s.success { 1int } else { 0 }),
            error: k.error + (if s.success { 0int } else { 1 }),
            bytes_in: k.bytes_in + s.bytes_in,
            bytes_out: k.bytes_out + s.bytes_out,
            lat_sum: k.lat_sum + l,
            lat_sumsq: k.lat_sumsq + l * l,
            lat_min: if l < k.lat_min { l } else { k.lat_min },
            lat_max: if l > k.lat_max { l } else { k.lat_max },
            hist: Seq::new(
                DISPLAY_BUCKET_COUNT as nat,
                |b: int| k.hist[b] + (if b == display_bucket(l) { 1int } else { 0 }),
            ),
            qcounts: Seq::new(
                Q_BUCKET_COUNT as nat,
                |b: int| k.qcounts[b] + (if b == qbucket(cl) { 1int } else { 0 }),
            ),
            qmax: if cl > k.qmax { cl } else { k.qmax },
            series: k.series.insert(ts, bump_series(base, s)),
            status_counts: match s.status_code {
                Some(c) => bump(k.status_counts, c),
                None => k.status_counts,
            },
            etype_counts: match s.error_type {
                Some(e) => bump(k.etype_counts, e),
                None => k.etype_counts,
            },
            triple_counts: match s.error_type {
                Some(e) => bump(k.triple_counts, sample_triple(s)),
                None => k.triple_counts,
            },
        }
    }
}

/// The fold-step, as a function value.
pub open spec fn step_fn() -> spec_fn(SampleResult, AggKernel) -> AggKernel {
    |s: SampleResult, k: AggKernel| step(s, k)
}

/// The accumulated state of a whole sample list.
pub open spec fn agg_kernel(samples: Seq<SampleResult>) -> AggKernel {
    samples.fold_right(step_fn(), empty_kernel())
}

/// Two samples can be folded in in either order.
pub proof fn lemma_step_commutes(x: SampleResult, y: SampleResult, k: AggKernel)
    ensures
        step(x, step(y, k)) == step(y, step(x, k)),
{
    if !x.cancelled && !y.cancelled {
        let a = step(x, step(y, k));
        let b = step(y, step(x, k));
        assert(a.hist =~= b.hist);
        assert(a.qcounts =~= b.qcounts);
        if series_key(x) == series_key(y) {
            assert(a.series[series_key(x)].lats =~= b.series[series_key(x)].lats);
            assert(a.series =~~= b.series);
        } else {
            assert(a.series =~~= b.series);
        }
        assert(a.status_counts =~= b.status_counts);
        assert(a.etype_counts =~= b.etype_counts);
        assert(a.triple_counts =~= b.triple_counts);
        assert(a =~~= b);
    }
}

/// The fold-step commutes, in the sense `fold_right` asks for.
pub proof fn lemma_step_fn_commutative()
    ensures
        commutative_foldr(step_fn()),
{
    assert forall|x: SampleResult, y: SampleResult, v: AggKernel| #[trigger]
        step_fn()(x, step_fn()(y, v)) == step_fn()(y, step_fn()(x, v)) by {
        lemma_step_commutes(x, y, v);
    }
}

/// The fold can also be unrolled from the left.
pub proof fn lemma_agg_unfold_left(s: Seq<SampleResult>)
    requires
        s.len() > 0,
    ensures
        agg_kernel(s) == step(s[0], agg_kernel(s.drop_first())),
{
    s.lemma_fold_right_alt(step_fn(), empty_kernel());
    s.drop_first().lemma_fold_right_alt(step_fn(), empty_kernel());
    assert(s.subrange(1, s.len() as int) =~= s.drop_first());
}

/// Lists with the same samples in any order accumulate the same state.
/// Together with the aggregator's contract, which gives every summary and
/// histogram figure as a function of this state, shuffling the input
/// changes neither the summary nor the histogram.
pub proof fn lemma_agg_kernel_permutation(s1: Seq<SampleResult>, s2: Seq<SampleResult>)
    requires
        s1.to_multiset() == s2.to_multiset(),
    ensures
        agg_kernel(s1) == agg_kernel(s2),
{
    lemma_step_fn_commutative();
    lemma_fold_right_permutation(s1, s2, step_fn(), empty_kernel());
}

/// Aggregation reads nothing but the sample list: equal lists accumulate
/// the same state, so aggregating the same list twice yields the same
/// summary figures.
pub proof fn lemma_agg_kernel_deterministic(s1: Seq<SampleResult>, s2: Seq<SampleResult>)
    requires
        s1 == s2,
    ensures
        agg_kernel(s1) == agg_kernel(s2),
{
}

/// Per-second bucket facts that every reachable state keeps.
pub open spec fn series_inv(b: SeriesKernel, total: int) -> bool {
    &&& 0 <= b.success
    &&& 0 <= b.error
    &&& 1 <= b.success + b.error <= total
    &&& b.success + b.error == b.lats.len()
    &&& 0 <= b.bytes_in
    &&& 0 <= b.bytes_out
}

/// Facts that every state reachable by folding `n` samples keeps.
pub open spec fn kernel_inv(k: AggKernel, n: int) -> bool {
    &&& 0 <= k.total <= n
    &&& 0 <= k.success
    &&& 0 <= k.error
    &&& k.success + k.error == k.total
    &&& 0 <= k.bytes_in
    &&& 0 <= k.bytes_out
    &&& 0 <= k.lat_sum
    &&& 0 <= k.lat_sumsq
    &&& (k.total > 0 ==> 0 <= k.lat_min <= k.lat_max <= u64::MAX)
    &&& (k.total == 0 ==> k == empty_kernel())
    &&& k.hist.len() == DISPLAY_BUCKET_COUNT
    &&& (forall|b: int| 0 <= b < k.hist.len() ==> 0 <= #[trigger] k.hist[b] <= k.total)
    &&& prefix_total(k.hist, DISPLAY_BUCKET_COUNT as int) == k.total
    &&& k.qcounts.len() == Q_BUCKET_COUNT
    &&& (forall|b: int| 0 <= b < k.qcounts.len() ==> 0 <= #[trigger] k.qcounts[b] <= k.total)
    &&& prefix_total(k.qcounts, Q_BUCKET_COUNT as int) == k.total
    &&& (k.total > 0 ==> 0 <= k.qmax <= LATENCY_CAP_US && k.qmax <= k.lat_max)
    &&& k.series.dom().finite()
    &&& (forall|ts: int| #[trigger] k.series.contains_key(ts) ==> series_inv(k.series[ts], k.total))
    &&& k.status_counts.dom().finite()
    &&& (forall|c: u16| #[trigger] k.status_counts.contains_key(c) ==> 1 <= k.status_counts[c]
        <= k.total)
    &&& k.etype_counts.dom().finite()
    &&& (forall|e: BenchmarkErrorType| #[trigger] k.etype_counts.contains_key(e) ==> 1
        <= k.etype_counts[e] <= k.total)
    &&& k.triple_counts.dom().finite()
    &&& (forall|t: (BenchmarkErrorType, Option<u16>, Seq<char>)| #[trigger]
        k.triple_counts.contains_key(t) ==> 1 <= k.triple_counts[t] <= k.total)
}

/// One step keeps the invariant.
pub proof fn lemma_step_preserves_inv(x: SampleResult, k: AggKernel, n: int)
    requires
        kernel_inv(k, n - 1),
    ensures
        kernel_inv(step(x, k), n),
{
    broadcast use vstd::set::group_set_axioms;
    broadcast use vstd::multiset::group_multiset_axioms;

    if !x.cancelled {
        let l = x.latency_us as int;
        let cl = capped_latency(l);
        let k2 = step(x, k);
        crate::qhist::lemma_qbucket_in_range(cl);
        assert(k2.hist =~= k.hist.update(display_bucket(l), k.hist[display_bucket(l)] + 1));
        crate::qhist::lemma_prefix_total_update(
            k.hist,
            display_bucket(l),
            k.hist[display_bucket(l)] + 1,
            DISPLAY_BUCKET_COUNT as int,
        );
        assert(k2.qcounts =~= k.qcounts.update(qbucket(cl), k.qcounts[qbucket(cl)] + 1));
        crate::qhist::lemma_prefix_total_update(
            k.qcounts,
            qbucket(cl),
            k.qcounts[qbucket(cl)] + 1,
            Q_BUCKET_COUNT as int,
        );
        if prefix_total(k2.hist, DISPLAY_BUCKET_COUNT as int) != k2.total {
            assert(false);
        }
    }
}

/// The accumulated state of any sample list keeps the invariant.
pub proof fn lemma_kernel_inv(s: Seq<SampleResult>)
    ensures
        kernel_inv(agg_kernel(s), s.len() as int),
    decreases s.len(),
{
    broadcast use vstd::set::group_set_axioms;

    if s.len() == 0 {
        assert(agg_kernel(s) == empty_kernel());
        crate::qhist::lemma_prefix_total_zero(empty_kernel().hist, DISPLAY_BUCKET_COUNT as int);
        crate::qhist::lemma_prefix_total_zero(empty_kernel().qcounts, Q_BUCKET_COUNT as int);
    } else {
        lemma_kernel_inv(s.drop_first());
        lemma_agg_unfold_left(s);
        lemma_step_preserves_inv(s[0], agg_kernel(s.drop_first()), s.len() as int);
    }
}

/// Appending one sample folds it onto the accumulated state.
pub proof fn lemma_agg_push(s: Seq<SampleResult>, x: SampleResult)
    ensures
        agg_kernel(s.push(x)) == step(x, agg_kernel(s)),
{
    let p = s.push(x);
    assert(p.drop_last() =~= s);
    assert(p.last() == x);
    assert(agg_kernel(p) == s.fold_right(step_fn(), step_fn()(x, empty_kernel())));
    lemma_step_fn_commutative();
    s.lemma_fold_right_commute_one(x, step_fn(), empty_kernel());
}

} // verus!
