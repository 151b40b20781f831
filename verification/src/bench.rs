//! The summary of a benchmark run: the fastest, average, slowest and 99th
//! percentile of 100 timings.
use vstd::prelude::*;

verus! {

/// How many times a benchmark renders the prompt.
pub const BENCH_RUNS: usize = 100;

/// The summary of 100 timings, in nanoseconds.
#[derive(Clone, Copy, Debug, PartialEq, Eq, Structural)]
pub struct BenchStats {
    pub min: u64,
    pub avg: u64,
    pub max: u64,
    pub p99: u64,
}

/// The sum of `t`.
pub open spec fn total(t: Seq<u64>) -> int
    decreases t.len(),
{
    if t.len() == 0 {
        0
    } else {
        total(t.drop_last()) + t.last()
    }
}

/// `s` summarizes the timings `t`: `min` and `max` are the least and
/// greatest timing, `p99` is what is left greatest once one greatest timing
/// is set aside (the 99th of the 100 sorted timings), and `avg` is the sum
/// divided by the number of timings, rounded down.
pub open spec fn summarizes(s: BenchStats, t: Seq<u64>) -> bool {
    &&& exists|i: int| 0 <= i < t.len() && t[i] == s.min
    &&& forall|i: int| 0 <= i < t.len() ==> s.min <= #[trigger] t[i]
    &&& exists|i: int| 0 <= i < t.len() && t[i] == s.max
    &&& forall|i: int| 0 <= i < t.len() ==> #[trigger] t[i] <= s.max
    &&& exists|a: int, b: int|
        0 <= a < t.len() && 0 <= b < t.len() && a != b && t[a] == s.max && t[b] == s.p99 && forall|
            j: int,
        | 0 <= j < t.len() && j != a ==> #[trigger] t[j] <= s.p99
    &&& s.avg == total(t) / (t.len() as int)
}

/// Summarizes the 100 timings of a benchmark (see `summarizes`).
pub fn bench_stats(times: &Vec<u64>) -> (s: BenchStats)
    requires
        times@.len() == BENCH_RUNS,
    ensures
        summarizes(s, times@),
{
    let n = times.len();
    let mut min = times[0];
    let mut max = times[0];
    let mut imax: usize = 0;
    let mut sum: u128 = 0;
    let mut i: usize = 0;
    while i < n
        invariant
            n == times@.len(),
            n == BENCH_RUNS,
            i <= n,
            imax < n,
            times@[imax as int] == max,
            exists|k: int| 0 <= k < n && times@[k] == min,
            forall|k: int| 0 <= k < i ==> min <= #[trigger] times@[k],
            forall|k: int| 0 <= k < i ==> #[trigger] times@[k] <= max,
            sum == total(times@.take(i as int)),
            sum <= i * 0xffff_ffff_ffff_ffffu128,
        decreases n - i,
    {
        let t = times[i];
        assert(times@.take(i + 1).drop_last() =~= times@.take(i as int));
        if t < min {
            min = t;
        }
        if t > max {
            max = t;
            imax = i;
        }
        sum = sum + t as u128;
        i += 1;
    }
    assert(times@.take(n as int) =~= times@);
    let mut p99: u64 = 0;
    let mut ib: usize = if imax == 0 {
        1
    } else {
        0
    };
    p99 = times[ib];
    let mut j: usize = 0;
    while j < n
        invariant
            n == times@.len(),
            n == BENCH_RUNS,
            j <= n,
            imax < n,
            ib < n,
            ib != imax,
            times@[ib as int] == p99,
            forall|k: int| 0 <= k < j && k != imax ==> #[trigger] times@[k] <= p99,
        decreases n - j,
    {
        if j != imax && times[j] > p99 {
            p99 = times[j];
            ib = j;
        }
        j += 1;
    }
    let avg = (sum / 100) as u64;
    BenchStats { min, avg, max, p99 }
}

proof fn lemma_total_bounds(t: Seq<u64>, lo: int, hi: int)
    requires
        forall|i: int| 0 <= i < t.len() ==> lo <= #[trigger] t[i] <= hi,
    ensures
        t.len() * lo <= total(t) <= t.len() * hi,
    decreases t.len(),
{
    if t.len() > 0 {
        let p = t.drop_last();
        assert forall|i: int| 0 <= i < p.len() implies lo <= #[trigger] p[i] <= hi by {
            assert(p[i] == t[i]);
        }
        lemma_total_bounds(p, lo, hi);
        assert(lo <= t[t.len() - 1] <= hi);
        assert(t.len() * lo == p.len() * lo + lo) by (nonlinear_arith)
            requires
                t.len() == p.len() + 1,
        ;
        assert(t.len() * hi == p.len() * hi + hi) by (nonlinear_arith)
            requires
                t.len() == p.len() + 1,
        ;
    }
}

/// The average of a benchmark lies between its fastest and slowest run.
pub proof fn law_bench_avg_between(s: BenchStats, t: Seq<u64>)
    requires
        t.len() > 0,
        summarizes(s, t),
    ensures
        s.min <= s.avg <= s.max,
{
    lemma_total_bounds(t, s.min as int, s.max as int);
    let n = t.len() as int;
    let sum = total(t);
    assert(s.min <= sum / n <= s.max) by (nonlinear_arith)
        requires
            n > 0,
            n * s.min <= sum <= n * s.max,
    ;
}

} // verus!
