//! Measure lookup on the song timeline. Times are nanoseconds from the start of the song;
//! `measures` holds the start time of every measure, in order.

use vstd::prelude::*;

verus! {

/// Shortest measure length used for layout (0.1 s), so a degenerate measure still spreads out.
pub const MIN_MEASURE_NS: u64 = 100_000_000;
/// Measure length assumed past the last measure boundary (1 s).
pub const DEFAULT_MEASURE_NS: u64 = 1_000_000_000;

/// Measure boundaries never go back in time.
pub open spec fn times_sorted(m: Seq<u64>) -> bool {
    forall|i: int, j: int| 0 <= i <= j < m.len() ==> m[i] <= m[j]
}

/// Index of the first boundary at or after `k` that lies strictly after `time` (the length when
/// there is none).
pub open spec fn first_after(m: Seq<u64>, time: u64, k: int) -> int
    decreases m.len() - k,
{
    if k >= m.len() {
        m.len() as int
    } else if m[k] > time {
        k
    } else {
        first_after(m, time, k + 1)
    }
}

/// The measure a time falls in: the last boundary not after `time`, clamped so that the
/// measure has a following boundary (0 when there are fewer than two boundaries).
pub open spec fn spec_measure_index(m: Seq<u64>, time: u64) -> int {
    if m.len() < 2 {
        0
    } else {
        let p = first_after(m, time, 0);
        let i = if p > 0 {
            p - 1
        } else {
            0
        };
        if i >= m.len() - 1 {
            m.len() - 2
        } else {
            i
        }
    }
}

/// Length of measure `i`: the gap to the next boundary (at least `MIN_MEASURE_NS`), or
/// `DEFAULT_MEASURE_NS` for the last measure.
pub open spec fn spec_measure_duration(m: Seq<u64>, i: int) -> int {
    if 0 <= i && i + 1 < m.len() {
        let d = m[i + 1] - m[i];
        if d < MIN_MEASURE_NS {
            MIN_MEASURE_NS as int
        } else {
            d
        }
    } else {
        DEFAULT_MEASURE_NS as int
    }
}

/// Start of measure `i`, or the song start when there is no such boundary.
pub open spec fn spec_measure_start(m: Seq<u64>, i: int) -> int {
    if 0 <= i < m.len() {
        m[i] as int
    } else {
        0
    }
}

proof fn lemma_first_after_range(m: Seq<u64>, time: u64, k: int)
    requires
        0 <= k <= m.len(),
    ensures
        k <= first_after(m, time, k) <= m.len(),
        forall|j: int| k <= j < first_after(m, time, k) ==> m[j] <= time,
        first_after(m, time, k) < m.len() ==> m[first_after(m, time, k)] > time,
    decreases m.len() - k,
{
    if k < m.len() && m[k] <= time {
        lemma_first_after_range(m, time, k + 1);
    }
}

/// (measure index) for a time: the measure containing `time`, clamped to the measures that
/// have an end boundary.
pub fn measure_index(measures: &Vec<u64>, time: u64) -> (i: usize)
    ensures
        i == spec_measure_index(measures@, time),
        measures@.len() >= 2 ==> i + 1 < measures@.len(),
{
    let n = measures.len();
    if n < 2 {
        return 0;
    }
    let mut p: usize = 0;
    while p < n && measures[p] <= time
        invariant
            p <= n,
            n == measures@.len(),
            first_after(measures@, time, 0) == first_after(measures@, time, p as int),
        decreases n - p,
    {
        p = p + 1;
    }
    let mut i = if p > 0 {
        p - 1
    } else {
        0
    };
    if i >= n - 1 {
        i = n - 2;
    }
    i
}

/// Length of measure `i` in nanoseconds (see [`spec_measure_duration`]).
pub fn measure_duration(measures: &Vec<u64>, i: usize) -> (d: u64)
    requires
        i + 1 < measures@.len() ==> measures@[i as int] <= measures@[i + 1],
    ensures
        d == spec_measure_duration(measures@, i as int),
        d >= MIN_MEASURE_NS,
{
    if i < measures.len() && i + 1 < measures.len() {
        let d = measures[i + 1] - measures[i];
        if d < MIN_MEASURE_NS {
            MIN_MEASURE_NS
        } else {
            d
        }
    } else {
        DEFAULT_MEASURE_NS
    }
}

/// Start time of measure `i` (0 when there is no such boundary).
pub fn measure_start(measures: &Vec<u64>, i: usize) -> (s: u64)
    ensures
        s == spec_measure_start(measures@, i as int),
{
    if i < measures.len() {
        measures[i]
    } else {
        0
    }
}

/// A time inside the song's measures lies in the measure [`measure_index`] picks: its start
/// boundary is not after the time and its end boundary is.
pub proof fn lemma_measure_index_contains(m: Seq<u64>, time: u64)
    requires
        times_sorted(m),
        m.len() >= 2,
        m[0] <= time < m[m.len() - 1],
    ensures
        m[spec_measure_index(m, time)] <= time < m[spec_measure_index(m, time) + 1],
{
    lemma_first_after_range(m, time, 0);
    let p = first_after(m, time, 0);
    assert(p > 0);
    assert(p < m.len());
}

} // verus!
