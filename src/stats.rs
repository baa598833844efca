use vstd::prelude::*;
use vstd::seq_lib::{to_multiset_build, to_multiset_insert};
use crate::report::Report;

verus! {

/// Sum of a sequence of values.
pub open spec fn sum(s: Seq<u64>) -> int
    decreases s.len(),
{
    if s.len() == 0 {
        0
    } else {
        sum(s.drop_last()) + s.last()
    }
}

/// Arithmetic mean, rounded down; `0` for no values.
pub open spec fn mean_of(s: Seq<u64>) -> int {
    if s.len() == 0 {
        0
    } else {
        sum(s) / (s.len() as int)
    }
}

/// Values in non-decreasing order.
pub open spec fn ascending(s: Seq<u64>) -> bool {
    forall|i: int, j: int| 0 <= i <= j < s.len() ==> s[i] <= s[j]
}

/// Middle of values in order: the middle value for an odd count, the mean of
/// the two middle values (rounded down) for an even count, `0` for none.
pub open spec fn middle(t: Seq<u64>) -> int {
    if t.len() == 0 {
        0
    } else {
        let h = (t.len() / 2) as int;
        if t.len() % 2 == 1 {
            t[h] as int
        } else {
            (t[h - 1] + t[h]) / 2
        }
    }
}

/// `m` is the median of `s`: the middle of `s` put in order.
pub open spec fn is_median(s: Seq<u64>, m: int) -> bool {
    exists|t: Seq<u64>| ascending(t) && t.to_multiset() == s.to_multiset() && m == middle(t)
}

proof fn lemma_sum_bound(s: Seq<u64>)
    ensures
        0 <= sum(s) <= s.len() * 0xFFFF_FFFF_FFFF_FFFF,
    decreases s.len(),
{
    if s.len() > 0 {
        lemma_sum_bound(s.drop_last());
    }
}

/// Arithmetic mean of `values`, rounded down; `0` when there are none.
pub fn mean(values: &Vec<u64>) -> (r: u64)
    ensures
        r == mean_of(values@),
{
    let n: usize = values.len();
    if n == 0 {
        return 0;
    }
    let mut total: u128 = 0;
    let mut i: usize = 0;
    while i < n
        invariant
            n == values@.len(),
            i <= n,
            total == sum(values@.take(i as int)),
        decreases n - i,
    {
        proof {
            assert(values@.take(i + 1).drop_last() =~= values@.take(i as int));
            lemma_sum_bound(values@.take(i as int));
            assert(total + values@[i as int] <= (i + 1) * 0xFFFF_FFFF_FFFF_FFFF) by (nonlinear_arith)
                requires total <= i * 0xFFFF_FFFF_FFFF_FFFF, values@[i as int] <= 0xFFFF_FFFF_FFFF_FFFF;
            assert((i + 1) * 0xFFFF_FFFF_FFFF_FFFF <= 0xFFFF_FFFF_FFFF_FFFF * 0xFFFF_FFFF_FFFF_FFFF) by (nonlinear_arith)
                requires i + 1 <= 0xFFFF_FFFF_FFFF_FFFF;
        }
        total = total + values[i] as u128;
        i = i + 1;
    }
    proof {
        assert(values@.take(n as int) =~= values@);
        lemma_sum_bound(values@);
        assert((total as int) / (n as int) <= 0xFFFF_FFFF_FFFF_FFFF) by (nonlinear_arith)
            requires total <= n * 0xFFFF_FFFF_FFFF_FFFF, n > 0;
    }
    (total / (n as u128)) as u64
}

/// The values of `values` in non-decreasing order.
fn sorted_copy(values: &Vec<u64>) -> (t: Vec<u64>)
    ensures
        ascending(t@),
        t@.to_multiset() == values@.to_multiset(),
{
    let mut out: Vec<u64> = Vec::new();
    let mut i: usize = 0;
    proof {
        assert(values@.take(0) =~= out@);
    }
    while i < values.len()
        invariant
            i <= values@.len(),
            ascending(out@),
            out@.to_multiset() == values@.take(i as int).to_multiset(),
        decreases values@.len() - i,
    {
        let v: u64 = values[i];
        let mut k: usize = out.len();
        while k > 0 && out[k - 1] > v
            invariant
                k <= out@.len(),
                forall|j: int| k <= j < out@.len() ==> out@[j] > v,
            decreases k,
        {
            k = k - 1;
        }
        let ghost before = out@;
        out.insert(k, v);
        proof {
            assert(values@.take(i + 1) =~= values@.take(i as int).push(v));
            to_multiset_build(values@.take(i as int), v);
            to_multiset_insert(before, k as int, v);
            assert forall|a: int, b: int| 0 <= a <= b < out@.len() implies out@[a] <= out@[b] by {
                if a < k && b > k {
                    assert(before[a] <= before[k - 1]);
                }
                if a < k && b == k {
                    assert(before[a] <= before[k - 1]);
                }
            }
        }
        i = i + 1;
    }
    proof {
        assert(values@.take(i as int) =~= values@);
    }
    out
}

/// Median of `values`: the middle value once they are in order, or the mean
/// of the two middle values (rounded down) for an even count; `0` when there
/// are none.
pub fn median(values: &Vec<u64>) -> (r: u64)
    ensures
        is_median(values@, r as int),
        values@.len() == 0 ==> r == 0,
{
    let t = sorted_copy(values);
    let n: usize = t.len();
    proof {
        assert(t@.to_multiset().len() == values@.to_multiset().len());
        t@.to_multiset_ensures();
        values@.to_multiset_ensures();
    }
    let r: u64 = if n == 0 {
        0
    } else if n % 2 == 1 {
        t[n / 2]
    } else {
        let a: u64 = t[n / 2 - 1];
        let b: u64 = t[n / 2];
        ((a as u128 + b as u128) / 2) as u64
    };
    assert(ascending(t@) && t@.to_multiset() == values@.to_multiset() && r == middle(t@));
    r
}

/// The numeric fields of a record that statistics are taken over.
#[derive(Debug, Clone, Copy, PartialEq, Eq, Structural)]
pub enum Metric {
    Duration,
    Executing,
    ExecutorUtilization,
    QueuingDuration,
    QueuingBlocked,
    QueuingWaiting,
    QueuingBuildable,
}

/// The value of field `m` of record `r`.
pub open spec fn metric_of(r: Report, m: Metric) -> u64 {
    match m {
        Metric::Duration => r.duration,
        Metric::Executing => r.executing,
        Metric::ExecutorUtilization => r.executor_utilization,
        Metric::QueuingDuration => r.queuing.duration,
        Metric::QueuingBlocked => r.queuing.blocked,
        Metric::QueuingWaiting => r.queuing.waiting,
        Metric::QueuingBuildable => r.queuing.buildable,
    }
}

/// The values of field `m` over the records of `s`, in their order.
pub open spec fn metric_values(s: Seq<Report>, m: Metric) -> Seq<u64> {
    Seq::new(s.len(), |i: int| metric_of(s[i], m))
}

/// The value of field `m` of `r`.
pub fn metric_value(r: &Report, m: Metric) -> (v: u64)
    ensures
        v == metric_of(*r, m),
{
    match m {
        Metric::Duration => r.duration,
        Metric::Executing => r.executing,
        Metric::ExecutorUtilization => r.executor_utilization,
        Metric::QueuingDuration => r.queuing.duration,
        Metric::QueuingBlocked => r.queuing.blocked,
        Metric::QueuingWaiting => r.queuing.waiting,
        Metric::QueuingBuildable => r.queuing.buildable,
    }
}

/// The values of field `m` over `bucket`, in its order.
pub fn collect_metric(bucket: &Vec<Report>, m: Metric) -> (v: Vec<u64>)
    ensures
        v@ == metric_values(bucket@, m),
{
    let mut v: Vec<u64> = Vec::new();
    let mut i: usize = 0;
    while i < bucket.len()
        invariant
            i <= bucket@.len(),
            v@ == metric_values(bucket@.take(i as int), m),
        decreases bucket@.len() - i,
    {
        v.push(metric_value(&bucket[i], m));
        i = i + 1;
        proof {
            assert(v@ =~= metric_values(bucket@.take(i as int), m));
        }
    }
    proof {
        assert(bucket@.take(i as int) =~= bucket@);
    }
    v
}

/// Mean and median of one field over a set of records, in the field's own
/// unit (milliseconds, or millionths for utilization).
#[derive(Debug, Clone, Copy, PartialEq, Eq, Structural)]
pub struct FieldStats {
    pub mean: u64,
    pub median: u64,
}

/// `f` holds the mean and the median of `v`.
pub open spec fn fits(f: FieldStats, v: Seq<u64>) -> bool {
    f.mean == mean_of(v) && is_median(v, f.median as int)
}

impl FieldStats {
    /// The mean of a duration, in whole seconds, rounded down.
    pub fn mean_secs(&self) -> (r: u64)
        ensures
            r == self.mean / 1000,
    {
        self.mean / 1000
    }

    /// The median of a duration, in whole seconds, rounded down.
    pub fn median_secs(&self) -> (r: u64)
        ensures
            r == self.median / 1000,
    {
        self.median / 1000
    }

    /// The mean of a ratio held in millionths, in hundredths, rounded down.
    pub fn mean_hundredths(&self) -> (r: u64)
        ensures
            r == self.mean / 10000,
    {
        self.mean / 10000
    }
}

/// Mean and median of `values`; both `0` when there are none.
pub fn field_stats(values: &Vec<u64>) -> (r: FieldStats)
    ensures
        fits(r, values@),
        values@.len() == 0 ==> r.mean == 0 && r.median == 0,
{
    FieldStats { mean: mean(values), median: median(values) }
}

/// Statistics of one window, or of all the records that were kept.
#[derive(Debug, Clone, Copy, PartialEq, Eq, Structural)]
pub struct SampleStats {
    pub count: usize,
    pub duration: FieldStats,
    pub executing: FieldStats,
    pub executor_utilization: FieldStats,
    pub queuing_duration: FieldStats,
    pub queuing_blocked: FieldStats,
    pub queuing_waiting: FieldStats,
    pub queuing_buildable: FieldStats,
}

/// `st` gives the count of `s` and the mean and median of each field over `s`.
pub open spec fn describes(st: SampleStats, s: Seq<Report>) -> bool {
    &&& st.count == s.len()
    &&& fits(st.duration, metric_values(s, Metric::Duration))
    &&& fits(st.executing, metric_values(s, Metric::Executing))
    &&& fits(st.executor_utilization, metric_values(s, Metric::ExecutorUtilization))
    &&& fits(st.queuing_duration, metric_values(s, Metric::QueuingDuration))
    &&& fits(st.queuing_blocked, metric_values(s, Metric::QueuingBlocked))
    &&& fits(st.queuing_waiting, metric_values(s, Metric::QueuingWaiting))
    &&& fits(st.queuing_buildable, metric_values(s, Metric::QueuingBuildable))
}

/// Every count, mean and median of `st` is zero.
pub open spec fn all_zero(st: SampleStats) -> bool {
    let z = FieldStats { mean: 0, median: 0 };
    &&& st.count == 0
    &&& st.duration == z
    &&& st.executing == z
    &&& st.executor_utilization == z
    &&& st.queuing_duration == z
    &&& st.queuing_blocked == z
    &&& st.queuing_waiting == z
    &&& st.queuing_buildable == z
}

/// Statistics of one field of `bucket`.
fn metric_stats(bucket: &Vec<Report>, m: Metric) -> (r: FieldStats)
    ensures
        fits(r, metric_values(bucket@, m)),
        bucket@.len() == 0 ==> r == (FieldStats { mean: 0, median: 0 }),
{
    let v = collect_metric(bucket, m);
    field_stats(&v)
}

/// Count, and mean and median of every field, over `bucket`. An empty
/// bucket gives zero everywhere.
pub fn summarize(bucket: &Vec<Report>) -> (st: SampleStats)
    ensures
        describes(st, bucket@),
        bucket@.len() == 0 ==> all_zero(st),
{
    SampleStats {
        count: bucket.len(),
        duration: metric_stats(bucket, Metric::Duration),
        executing: metric_stats(bucket, Metric::Executing),
        executor_utilization: metric_stats(bucket, Metric::ExecutorUtilization),
        queuing_duration: metric_stats(bucket, Metric::QueuingDuration),
        queuing_blocked: metric_stats(bucket, Metric::QueuingBlocked),
        queuing_waiting: metric_stats(bucket, Metric::QueuingWaiting),
        queuing_buildable: metric_stats(bucket, Metric::QueuingBuildable),
    }
}

} // verus!
