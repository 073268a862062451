//! Rhythm decisions for one voice (staff) of the scrolling staff: which consecutive columns are
//! beamed together, which are grace notes, and which are drawn alone.
//!
//! Times are nanoseconds. A beat is a quarter of the measure, and the boundary tolerances of
//! the renderer are kept exactly: the beat index of an onset is nudged forward by one hundredth
//! of the quarter's length counted in seconds, and a note within a fiftieth of a quarter before
//! the beat's end already counts as past it.

use vstd::prelude::*;
use crate::glyphs::NOTEHEAD_BLACK;
use crate::staff::{classify_in_measure, note_value};
use crate::pitch::{diatonic_step, spec_diatonic_step};
use crate::timeline::{
    measure_duration, measure_index, measure_start, spec_measure_duration, spec_measure_index,
    spec_measure_start, times_sorted, MIN_MEASURE_NS,
};

verus! {

/// Beat (quarter) index, counted from the measure start `ms`, of an onset at `t` in a measure
/// of length `d`: `floor((t - ms) / q + q_seconds / 100)` with `q = d / 4`.
pub open spec fn beat_index(t: int, ms: int, d: int) -> int {
    (1_600_000_000_000 * (t - ms) + d * d) / (400_000_000_000 * d)
}

/// Whether an onset at `t` lies before the end of beat `b` less the tolerance of a fiftieth of a
/// quarter: `t < ms + (b + 1) * q - q / 50` with `q = d / 4`.
pub open spec fn before_beat_end(t: int, ms: int, d: int, b: int) -> bool {
    200 * t < 200 * ms + 50 * (b + 1) * d - d
}

/// Flag count of the gap between columns `k` and `k + 1` (as a note value within a measure of
/// length `d`).
pub open spec fn gap_flags(ts: Seq<u64>, k: int, d: int) -> u8 {
    note_value(4 * (ts[k + 1] - ts[k]), d).2
}

/// Most columns one beam may hold: a beat's worth of its note value.
pub open spec fn beam_cap(f: u8) -> int {
    if f == 1 {
        2
    } else if f == 2 {
        4
    } else {
        8
    }
}

/// Last column of the beam that starts at `i`, extended from `j` while the next column stays
/// in the beat, the cap is not reached and the gaps keep the same note value `f`.
pub open spec fn beam_extent(ts: Seq<u64>, i: int, j: int, f: u8, d: int, ms: int, b: int) -> int
    decreases ts.len() - j,
{
    if j + 1 < ts.len() && j + 1 - i < beam_cap(f) && before_beat_end(ts[j + 1] as int, ms, d, b)
        && gap_flags(ts, j, d) == f {
        beam_extent(ts, i, j + 1, f, d, ms, b)
    } else {
        j
    }
}

/// The beam starting at column `i`, as `(last column, flag count)`, or `None` for a lone /
/// non-beamable column: the next column must fall in the same beat and the gap must be an
/// eighth or shorter.
pub open spec fn spec_beam_run_end(ts: Seq<u64>, i: int, d: int, ms: int) -> Option<(usize, u8)> {
    if i + 1 >= ts.len() {
        None
    } else {
        let b = beat_index(ts[i] as int, ms, d);
        if !before_beat_end(ts[i + 1] as int, ms, d, b) {
            None
        } else {
            let f = gap_flags(ts, i, d);
            if f < 1 {
                None
            } else {
                Some((beam_extent(ts, i, i + 1, f, d, ms, b) as usize, f))
            }
        }
    }
}

/// Floor division for a positive divisor, through the magnitudes.
fn floor_div(a: i128, den: i128) -> (q: i128)
    requires
        den > 0,
        -0x100_0000_0000_0000_0000_0000_0000_0000 < a < 0x100_0000_0000_0000_0000_0000_0000_0000,
        den < 0x100_0000_0000_0000_0000_0000_0000_0000,
    ensures
        q == a / den,
{
    if a >= 0 {
        ((a as u128) / (den as u128)) as i128
    } else {
        let m = (-a) as u128;
        let dd = den as u128;
        let q = (m + dd - 1) / dd;
        proof {
            let qi = q as int;
            let r = (m + dd - 1) as int % (dd as int);
            vstd::arithmetic::div_mod::lemma_fundamental_div_mod((m + dd - 1) as int, dd as int);
            assert((m + dd - 1) as int == dd as int * qi + r);
            assert(0 <= r < dd);
            assert((-qi) * (den as int) == -(qi * (den as int))) by (nonlinear_arith);
            assert(a as int == (-qi) * (den as int) + (dd - 1 - r)) by (nonlinear_arith)
                requires
                    (m + dd - 1) as int == dd as int * qi + r,
                    m as int == -(a as int),
                    dd as int == den as int,
                    (-qi) * (den as int) == -(qi * (den as int));
            vstd::arithmetic::div_mod::lemma_fundamental_div_mod_converse(
                a as int,
                den as int,
                -qi,
                (dd - 1 - r) as int,
            );
        }
        -(q as i128)
    }
}

/// The beat index splits into the whole part `d / K` of `d * d / (K * d)` plus the floor of the
/// rest, with `K` the divisor of the hundredth-of-a-second nudge; the rest stays small enough
/// for 128-bit arithmetic. Also bounds the end of the beat in measure-length units.
proof fn lemma_beat_index_split(t: int, ms: int, d: int, qd: int, rd: int, q: int, r: int)
    requires
        0 <= t < 0x1_0000_0000_0000_0000,
        0 <= ms < 0x1_0000_0000_0000_0000,
        1 <= d < 0x1_0000_0000_0000_0000,
        d == 400_000_000_000 * qd + rd,
        0 <= rd < 400_000_000_000,
        0 <= qd,
        1_600_000_000_000 * (t - ms) + rd * d == 400_000_000_000 * d * q + r,
        0 <= r < 400_000_000_000 * d,
    ensures
        beat_index(t, ms, d) == q + qd,
        -0x4_0000_0000_0000_0000 <= (q + qd + 1) * d <= 0x1000_0000_0000_0000_0000_0000,
{
    let num = 1_600_000_000_000 * (t - ms) + d * d;
    let c = 400_000_000_000 * d;
    assert(d * d == c * qd + rd * d) by (nonlinear_arith)
        requires
            d == 400_000_000_000 * qd + rd,
            c == 400_000_000_000 * d;
    assert(num == c * (q + qd) + r) by (nonlinear_arith)
        requires
            num == 1_600_000_000_000 * (t - ms) + d * d,
            d * d == c * qd + rd * d,
            1_600_000_000_000 * (t - ms) + rd * d == 400_000_000_000 * d * q + r,
            c == 400_000_000_000 * d;
    vstd::arithmetic::div_mod::lemma_fundamental_div_mod_converse(num, c, q + qd, r);
    let b = q + qd;
    let p = (b + 1) * d;
    assert(400_000_000_000 * p == num - r + c) by (nonlinear_arith)
        requires
            num == c * b + r,
            c == 400_000_000_000 * d,
            p == (b + 1) * d;
    assert(d * d <= 0xFFFF_FFFF_FFFF_FFFF * 0xFFFF_FFFF_FFFF_FFFF) by (nonlinear_arith)
        requires
            1 <= d < 0x1_0000_0000_0000_0000;
    if p > 0x1000_0000_0000_0000_0000_0000 {
        assert(400_000_000_000 * p > 400_000_000_000 * 0x1000_0000_0000_0000_0000_0000) by (nonlinear_arith)
            requires
                p > 0x1000_0000_0000_0000_0000_0000;
        assert(false);
    }
    if p < -0x4_0000_0000_0000_0000 {
        assert(400_000_000_000 * p < 400_000_000_000 * -0x4_0000_0000_0000_0000) by (nonlinear_arith)
            requires
                p < -0x4_0000_0000_0000_0000;
        assert(d * d >= 0) by (nonlinear_arith);
        assert(false);
    }
}

/// A factor of a product with a positive integer lies within the product's bounds.
proof fn lemma_factor_bound(x: int, d: int)
    requires
        1 <= d,
        -0x4_0000_0000_0000_0000 <= x * d <= 0x1000_0000_0000_0000_0000_0000,
    ensures
        -0x4_0000_0000_0000_0000 <= x <= 0x1000_0000_0000_0000_0000_0000,
{
    if x > 0 {
        assert(x <= x * d) by (nonlinear_arith)
            requires
                x > 0,
                d >= 1;
    } else {
        assert(x * d <= x) by (nonlinear_arith)
            requires
                x <= 0,
                d >= 1;
    }
}

/// The beat index of an onset (see [`beat_index`]), with the end of its beat in measure-length
/// units kept within 128-bit range.
fn beat_of(t: u64, ms: u64, d: u64) -> (b: i128)
    requires
        1 <= d,
    ensures
        b == beat_index(t as int, ms as int, d as int),
        -0x4_0000_0000_0000_0000 <= (b + 1) * d <= 0x1000_0000_0000_0000_0000_0000,
{
    let k: u64 = 400_000_000_000;
    let qd = d / k;
    let rd = d % k;
    assert(rd as int * d as int <= 400_000_000_000 * 0xFFFF_FFFF_FFFF_FFFF) by (nonlinear_arith)
        requires
            rd < 400_000_000_000,
            d <= 0xFFFF_FFFF_FFFF_FFFF;
    assert(400_000_000_000 * (d as int) <= 400_000_000_000 * 0xFFFF_FFFF_FFFF_FFFF);
    let a: i128 = 1_600_000_000_000i128 * (t as i128 - ms as i128) + (rd as i128) * (d as i128);
    let c: i128 = 400_000_000_000i128 * (d as i128);
    let q = floor_div(a, c);
    proof {
        vstd::arithmetic::div_mod::lemma_fundamental_div_mod(a as int, c as int);
        vstd::arithmetic::div_mod::lemma_fundamental_div_mod(d as int, 400_000_000_000);
        lemma_beat_index_split(t as int, ms as int, d as int, qd as int, rd as int, q as int, a as int % c as int);
        lemma_factor_bound(q + qd + 1, d as int);
    }
    q + qd as i128
}

/// Whether `t` is before the end of beat `b` less the tolerance (see [`before_beat_end`]).
fn before_end(t: u64, ms: u64, d: u64, b: i128) -> (r: bool)
    requires
        1 <= d,
        -0x4_0000_0000_0000_0000 <= (b + 1) * d <= 0x1000_0000_0000_0000_0000_0000,
    ensures
        r == before_beat_end(t as int, ms as int, d as int, b as int),
{
    proof {
        lemma_factor_bound(b + 1, d as int);
        assert(50 * (b as int + 1) * (d as int) == 50 * ((b as int + 1) * (d as int))) by (nonlinear_arith);
    }
    let dd = d as i128;
    200 * (t as i128) < 200 * (ms as i128) + 50 * ((b + 1) * dd) - dd
}

/// Decide whether a beam group starts at column `i`, and if so return `(last_index, flags)` —
/// the last column included (inclusive) and the beam count (1 = eighth, 2 = sixteenth, 3 =
/// thirty-second). Returns `None` for a lone / non-beamable column.
///
/// The rhythmic value is taken from the inter-onset gap between consecutive columns, not from
/// each note's stored duration: the run extends while consecutive gaps keep the same value,
/// stays inside one beat (beams never cross a beat), and is capped at the count of that value
/// fitting one beat (eighths → 2, sixteenths → 4, thirty-seconds → 8).
pub fn beam_run_end(times: &Vec<u64>, i: usize, measure_len: u64, measure_start: u64) -> (r: Option<(usize, u8)>)
    requires
        times_sorted(times@),
        1 <= measure_len,
    ensures
        r == spec_beam_run_end(times@, i as int, measure_len as int, measure_start as int),
{
    let n = times.len();
    if i >= n || i + 1 >= n {
        return None;
    }
    let b = beat_of(times[i], measure_start, measure_len);
    if !before_end(times[i + 1], measure_start, measure_len, b) {
        return None;
    }
    let f = classify_in_measure(times[i + 1] - times[i], measure_len).2;
    if f < 1 {
        return None;
    }
    let cap: usize = if f == 1 {
        2
    } else if f == 2 {
        4
    } else {
        8
    };
    let ghost ts = times@;
    let ghost dd = measure_len as int;
    let ghost ms = measure_start as int;
    let mut j = i + 1;
    while j + 1 < n && (j + 1 - i) < cap && before_end(times[j + 1], measure_start, measure_len, b)
        invariant
            n == times@.len(),
            ts == times@,
            dd == measure_len as int,
            ms == measure_start as int,
            times_sorted(times@),
            1 <= measure_len,
            -0x4_0000_0000_0000_0000 <= (b + 1) * measure_len <= 0x1000_0000_0000_0000_0000_0000,
            i + 1 <= j < n,
            cap == beam_cap(f),
            beam_extent(ts, i as int, i + 1, f, dd, ms, b as int) == beam_extent(ts, i as int, j as int, f, dd, ms, b as int),
        ensures
            i + 1 <= j < n,
            beam_extent(ts, i as int, i + 1, f, dd, ms, b as int) == j,
        decreases n - j,
    {
        let tj1 = times[j + 1];
        let tj = times[j];
        assert(tj <= tj1);
        let gap = tj1 - tj;
        let cl = classify_in_measure(gap, measure_len);
        let g = cl.2;
        assert(gap as int == ts[j + 1] - ts[j as int]);
        assert(note_value(4 * gap, dd) == note_value(4 * (ts[j + 1] - ts[j as int]), dd));
        assert(g == gap_flags(ts, j as int, dd));
        if g != f {
            break;
        }
        j = j + 1;
    }
    Some((j, f))
}

} // verus!

verus! {

/// Properties of a beam group: it starts with the pair `(i, i + 1)`, holds at most a beat's
/// worth of its value, every column after the first lies inside the first column's beat, and
/// every gap inside it has the same note value.
pub proof fn lemma_beam_group(ts: Seq<u64>, i: int, d: int, ms: int)
    requires
        0 <= i,
        ts.len() <= usize::MAX,
        spec_beam_run_end(ts, i, d, ms) is Some,
    ensures
        ({
            let (j, f) = spec_beam_run_end(ts, i, d, ms).unwrap();
            let b = beat_index(ts[i] as int, ms, d);
            &&& i + 1 <= j < ts.len()
            &&& 1 <= f
            &&& j - i + 1 <= beam_cap(f)
            &&& forall|k: int| i < k <= j ==> before_beat_end(ts[k] as int, ms, d, b)
            &&& forall|k: int| i <= k < j ==> gap_flags(ts, k, d) == f
        }),
{
    let b = beat_index(ts[i] as int, ms, d);
    let f = gap_flags(ts, i, d);
    lemma_beam_extent(ts, i, i + 1, f, d, ms, b);
}

proof fn lemma_beam_extent(ts: Seq<u64>, i: int, j: int, f: u8, d: int, ms: int, b: int)
    requires
        0 <= i < j < ts.len(),
        j - i + 1 <= beam_cap(f),
        forall|k: int| i < k <= j ==> before_beat_end(ts[k] as int, ms, d, b),
        forall|k: int| i <= k < j ==> gap_flags(ts, k, d) == f,
    ensures
        ({
            let e = beam_extent(ts, i, j, f, d, ms, b);
            &&& j <= e < ts.len()
            &&& e - i + 1 <= beam_cap(f)
            &&& forall|k: int| i < k <= e ==> before_beat_end(ts[k] as int, ms, d, b)
            &&& forall|k: int| i <= k < e ==> gap_flags(ts, k, d) == f
        }),
    decreases ts.len() - j,
{
    if j + 1 < ts.len() && j + 1 - i < beam_cap(f) && before_beat_end(ts[j + 1] as int, ms, d, b)
        && gap_flags(ts, j, d) == f {
        lemma_beam_extent(ts, i, j + 1, f, d, ms, b);
    }
}

/// One column of a voice stream: all notes of one staff sharing an onset (a chord), with the
/// onset time `t` and each note as `(midi, stored duration)` in nanoseconds.
pub struct VoiceColumn {
    pub t: u64,
    pub notes: Vec<(u8, u64)>,
}

/// Four times the quarter length used to classify stored durations: the measure length, but at
/// least four milliseconds (a quarter of at least one millisecond).
pub open spec fn value_measure(d: int) -> int {
    if d < 4_000_000 {
        4_000_000
    } else {
        d
    }
}

/// Onset times of the columns.
pub open spec fn column_times(cols: Seq<VoiceColumn>) -> Seq<u64> {
    cols.map_values(|c: VoiceColumn| c.t)
}

/// Grace note: column `i` holds only notes stored as a thirty-second or shorter, and is
/// crushed (at most an eighth before) onto a following column holding some longer note.
pub open spec fn spec_is_grace(cols: Seq<VoiceColumn>, i: int, d: int) -> bool {
    &&& i + 1 < cols.len()
    &&& forall|k: int|
        0 <= k < cols[i].notes@.len() ==> note_value(
            4 * (#[trigger] cols[i].notes@[k]).1,
            value_measure(d),
        ).2 >= 3
    &&& exists|k: int|
        0 <= k < cols[i + 1].notes@.len() && note_value(
            4 * (#[trigger] cols[i + 1].notes@[k]).1,
            value_measure(d),
        ).2 < 3
    &&& 8 * (cols[i + 1].t - cols[i].t) <= d
}

/// Whether column `i` is a grace note before column `i + 1`, in a measure of length
/// `measure_len` (see [`spec_is_grace`]).
pub fn is_grace(cols: &Vec<VoiceColumn>, i: usize, measure_len: u64) -> (g: bool)
    requires
        forall|k: int| 0 <= k < cols@.len() - 1 ==> #[trigger] cols@[k].t <= cols@[k + 1].t,
    ensures
        g == spec_is_grace(cols@, i as int, measure_len as int),
        g ==> i + 1 < cols@.len() && exists|k: int|
            0 <= k < cols@[i + 1].notes@.len() && note_value(
                4 * (#[trigger] cols@[i + 1].notes@[k]).1,
                value_measure(measure_len as int),
            ).2 < 3,
{
    if i >= cols.len() || i + 1 >= cols.len() {
        return false;
    }
    let q4: u64 = if measure_len < 4_000_000 {
        4_000_000
    } else {
        measure_len
    };
    let cur = &cols[i].notes;
    let mut all_short = true;
    let mut k: usize = 0;
    while k < cur.len()
        invariant
            k <= cur@.len(),
            q4 == value_measure(measure_len as int),
            all_short <==> forall|m: int| 0 <= m < k ==> note_value(4 * (#[trigger] cur@[m]).1, q4 as int).2 >= 3,
        decreases cur@.len() - k,
    {
        if classify_in_measure(cur[k].1, q4).2 < 3 {
            all_short = false;
        }
        k = k + 1;
    }
    let next = &cols[i + 1].notes;
    let mut any_long = false;
    let mut k: usize = 0;
    while k < next.len()
        invariant
            k <= next@.len(),
            q4 == value_measure(measure_len as int),
            any_long <==> exists|m: int| 0 <= m < k && note_value(4 * (#[trigger] next@[m]).1, q4 as int).2 < 3,
        decreases next@.len() - k,
    {
        if classify_in_measure(next[k].1, q4).2 < 3 {
            any_long = true;
        }
        k = k + 1;
    }
    let close = 8 * ((cols[i + 1].t - cols[i].t) as u128) <= measure_len as u128;
    all_short && any_long && close
}

/// How one stretch of a voice stream is drawn: a grace note before the next column, a beamed
/// group `first..=last` with `flags` beams, or a lone column with its own flag.
pub enum StreamItem {
    Grace(usize),
    Beamed(usize, usize, u8),
    Single(usize),
}

/// First column an item draws.
pub open spec fn item_first(it: StreamItem) -> int {
    match it {
        StreamItem::Grace(c) => c as int,
        StreamItem::Beamed(a, _, _) => a as int,
        StreamItem::Single(c) => c as int,
    }
}

/// The column after the last one an item draws.
pub open spec fn item_next(it: StreamItem) -> int {
    match it {
        StreamItem::Grace(c) => c + 1,
        StreamItem::Beamed(_, b, _) => b + 1,
        StreamItem::Single(c) => c + 1,
    }
}

/// The item starting at column `i`: a grace note if it is one, else the beam starting there if
/// any, else a lone column. The measure (length and start) is the one containing the onset.
pub open spec fn spec_item_at(cols: Seq<VoiceColumn>, measures: Seq<u64>, i: int) -> StreamItem {
    let mi = spec_measure_index(measures, cols[i].t);
    let d = spec_measure_duration(measures, mi);
    let ms = spec_measure_start(measures, mi);
    if spec_is_grace(cols, i, d) {
        StreamItem::Grace(i as usize)
    } else {
        match spec_beam_run_end(column_times(cols), i, d, ms) {
            Some((j, f)) => StreamItem::Beamed(i as usize, j, f),
            None => StreamItem::Single(i as usize),
        }
    }
}

/// `items` walk the columns `0..n` left to right, each item being the one that starts where
/// the previous ended.
pub open spec fn stream_items_spec(cols: Seq<VoiceColumn>, measures: Seq<u64>, items: Seq<StreamItem>) -> bool {
    &&& (items.len() == 0 <==> cols.len() == 0)
    &&& items.len() > 0 ==> item_first(items[0]) == 0
    &&& forall|k: int| 0 <= k < items.len() ==> #[trigger] items[k] == spec_item_at(cols, measures, item_first(items[k]))
    &&& forall|k: int| 0 <= k < items.len() - 1 ==> item_first(#[trigger] items[k + 1]) == item_next(items[k])
    &&& items.len() > 0 ==> item_next(items[items.len() - 1]) == cols.len()
}

/// A grace note is always crushed onto a main note: a column is a grace note only when it is
/// followed by a column holding at least one note longer than a thirty-second (by its stored
/// duration, in the grace note's measure). So a run of thirty-seconds with no longer note holds
/// no grace note at all.
pub proof fn lemma_grace_needs_main(cols: Seq<VoiceColumn>, i: int, d: int)
    requires
        spec_is_grace(cols, i, d),
    ensures
        i + 1 < cols.len(),
        exists|k: int| 0 <= k < cols[i + 1].notes@.len() && note_value(
            4 * (#[trigger] cols[i + 1].notes@[k]).1,
            value_measure(d),
        ).2 < 3,
{
}

/// In a drawn voice stream, every grace note is followed by a column holding a note longer than
/// a thirty-second (in the measure the grace note's onset falls in).
pub proof fn lemma_stream_grace_has_main(cols: Seq<VoiceColumn>, measures: Seq<u64>, items: Seq<StreamItem>, k: int)
    requires
        stream_items_spec(cols, measures, items),
        0 <= k < items.len(),
        items[k] is Grace,
    ensures
        ({
            let c = item_first(items[k]);
            let d = spec_measure_duration(measures, spec_measure_index(measures, cols[c].t));
            &&& c + 1 < cols.len()
            &&& exists|m: int| 0 <= m < cols[c + 1].notes@.len() && note_value(
                4 * (#[trigger] cols[c + 1].notes@[m]).1,
                value_measure(d),
            ).2 < 3
        }),
{
    let c = item_first(items[k]);
    let d = spec_measure_duration(measures, spec_measure_index(measures, cols[c].t));
    assert(items[k] == spec_item_at(cols, measures, c));
    if !spec_is_grace(cols, c, d) {
        assert(!(spec_item_at(cols, measures, c) is Grace));
    }
    lemma_grace_needs_main(cols, c, d);
}

/// The stream item starting at column `i` (see [`spec_item_at`]).
fn item_at(columns: &Vec<VoiceColumn>, times: &Vec<u64>, measures: &Vec<u64>, i: usize) -> (item: StreamItem)
    requires
        i < columns@.len(),
        times@ == column_times(columns@),
        times_sorted(measures@),
        times_sorted(times@),
    ensures
        item == spec_item_at(columns@, measures@, i as int),
        item_first(item) == i,
        i < item_next(item) <= columns@.len(),
{
    assert(times@[i as int] == columns@[i as int].t);
    let nt = times.len();
    let mi = measure_index(measures, columns[i].t);
    proof {
        if mi + 1 < measures@.len() {
            assert(measures@[mi as int] <= measures@[mi + 1]);
        }
    }
    let d = measure_duration(measures, mi);
    let ms = measure_start(measures, mi);
    proof {
        assert forall|k: int| 0 <= k < columns@.len() - 1 implies #[trigger] columns@[k].t <= columns@[k + 1].t by {
            assert(times@[k] == columns@[k].t);
            assert(times@[k + 1] == columns@[k + 1].t);
        }
    }
    if is_grace(columns, i, d) {
        StreamItem::Grace(i)
    } else {
        match beam_run_end(times, i, d, ms) {
            Some((j, f)) => {
                proof {
                    lemma_beam_group(times@, i as int, d as int, ms as int);
                }
                StreamItem::Beamed(i, j, f)
            },
            None => StreamItem::Single(i),
        }
    }
}

/// Walk one voice's columns (sorted by time): a column that is a grace note (very short note
/// crushed just before a longer main note) is drawn small and skipped past; otherwise each column
/// either starts a beamed group ([`beam_run_end`]) or — if lone / not beamable — is drawn alone
/// with an individual flag.
pub fn voice_stream_items(columns: &Vec<VoiceColumn>, measures: &Vec<u64>) -> (items: Vec<StreamItem>)
    requires
        times_sorted(measures@),
        times_sorted(column_times(columns@)),
    ensures
        stream_items_spec(columns@, measures@, items@),
{
    let n = columns.len();
    let mut times: Vec<u64> = Vec::new();
    let mut k: usize = 0;
    while k < n
        invariant
            n == columns@.len(),
            k <= n,
            times@ == column_times(columns@).take(k as int),
        decreases n - k,
    {
        times.push(columns[k].t);
        k = k + 1;
        assert(times@ =~= column_times(columns@).take(k as int));
    }
    assert(times@ =~= column_times(columns@));
    let mut items: Vec<StreamItem> = Vec::new();
    let mut i: usize = 0;
    while i < n
        invariant
            n == columns@.len(),
            times@ == column_times(columns@),
            times_sorted(measures@),
            times_sorted(times@),
            i <= n,
            items@.len() == 0 <==> i == 0,
            items@.len() > 0 ==> item_first(items@[0]) == 0,
            forall|k: int| 0 <= k < items@.len() ==> #[trigger] items@[k] == spec_item_at(columns@, measures@, item_first(items@[k])),
            forall|k: int| 0 <= k < items@.len() - 1 ==> item_first(#[trigger] items@[k + 1]) == item_next(items@[k]),
            items@.len() > 0 ==> item_next(items@[items@.len() - 1]) == i,
        decreases n - i,
    {
        let item = item_at(columns, &times, measures, i);
        let next = match item {
            StreamItem::Grace(c) => c + 1,
            StreamItem::Beamed(_, b, _) => b + 1,
            StreamItem::Single(c) => c + 1,
        };
        items.push(item);
        i = next;
    }
    items
}

} // verus!

verus! {

/// Resolved notation of one notehead within a voice: its (possibly ottava-shifted) diatonic
/// step, notehead glyph, whether it takes a stem, its flag count (0 = quarter-or-longer,
/// 1 = eighth, 2 = sixteenth, ...) and its true MIDI note (which decides the accidental).
#[derive(Clone, Copy, Debug)]
pub struct NoteHead {
    pub step: i32,
    pub head: char,
    pub has_stem: bool,
    pub flags: u8,
    pub midi: u8,
}

/// Notation of each note of a column, drawn `shift` diatonic steps from its true position,
/// classified by its stored duration within a measure of length `measure_len`.
pub fn voice_heads(notes: &Vec<(u8, u64)>, measure_len: u64, shift: i32) -> (heads: Vec<NoteHead>)
    requires
        i32::MIN + 7 <= shift <= i32::MAX - 141,
    ensures
        heads@.len() == notes@.len(),
        forall|k: int|
            0 <= k < notes@.len() ==> {
                let h = #[trigger] heads@[k];
                let (midi, dur) = notes@[k];
                &&& h.step == spec_diatonic_step(midi as int) + shift
                &&& (h.head, h.has_stem, h.flags) == note_value(4 * dur, value_measure(measure_len as int))
                &&& h.midi == midi
            },
{
    let q4: u64 = if measure_len < 4_000_000 {
        4_000_000
    } else {
        measure_len
    };
    let mut heads: Vec<NoteHead> = Vec::new();
    let mut k: usize = 0;
    while k < notes.len()
        invariant
            k <= notes@.len(),
            heads@.len() == k,
            i32::MIN + 7 <= shift <= i32::MAX - 141,
            q4 == value_measure(measure_len as int),
            forall|m: int|
                0 <= m < k ==> {
                    let h = #[trigger] heads@[m];
                    let (midi, dur) = notes@[m];
                    &&& h.step == spec_diatonic_step(midi as int) + shift
                    &&& (h.head, h.has_stem, h.flags) == note_value(4 * dur, q4 as int)
                    &&& h.midi == midi
                },
        decreases notes@.len() - k,
    {
        let (midi, dur) = notes[k];
        proof {
            crate::ottava::lemma_step_range(midi);
        }
        let (head, has_stem, flags) = classify_in_measure(dur, q4);
        heads.push(NoteHead { step: diatonic_step(midi) + shift, head, has_stem, flags, midi });
        k = k + 1;
    }
    heads
}

/// Stem of a lone column: `None` when no notehead takes a stem, otherwise the flag count of the
/// shared stem — the largest among the column's noteheads.
pub fn chord_stem_flags(heads: &Vec<NoteHead>) -> (f: Option<u8>)
    ensures
        f is None <==> forall|k: int| 0 <= k < heads@.len() ==> !(#[trigger] heads@[k]).has_stem,
        f matches Some(m) ==> (forall|k: int| 0 <= k < heads@.len() ==> (#[trigger] heads@[k]).flags <= m)
            && exists|k: int| 0 <= k < heads@.len() && (#[trigger] heads@[k]).flags == m,
{
    let mut any_stem = false;
    let mut max_flags: u8 = 0;
    let mut k: usize = 0;
    while k < heads.len()
        invariant
            k <= heads@.len(),
            any_stem <==> exists|m: int| 0 <= m < k && (#[trigger] heads@[m]).has_stem,
            forall|m: int| 0 <= m < k ==> (#[trigger] heads@[m]).flags <= max_flags,
            k > 0 ==> exists|m: int| 0 <= m < k && (#[trigger] heads@[m]).flags == max_flags,
        decreases heads@.len() - k,
    {
        if heads[k].has_stem {
            any_stem = true;
        }
        if k == 0 || heads[k].flags > max_flags {
            max_flags = heads[k].flags;
        }
        k = k + 1;
    }
    if any_stem {
        Some(max_flags)
    } else {
        None
    }
}

/// Noteheads of a beamed column: a beamed note is an eighth or shorter by definition, so its
/// head is always filled, whatever stored duration it was classified from.
pub fn filled_heads(heads: Vec<NoteHead>) -> (out: Vec<NoteHead>)
    ensures
        out@.len() == heads@.len(),
        forall|k: int|
            0 <= k < heads@.len() ==> #[trigger] out@[k] == (NoteHead { head: NOTEHEAD_BLACK, ..heads@[k] }),
{
    let mut out: Vec<NoteHead> = Vec::new();
    let mut k: usize = 0;
    while k < heads.len()
        invariant
            k <= heads@.len(),
            out@.len() == k,
            forall|m: int| 0 <= m < k ==> #[trigger] out@[m] == (NoteHead { head: NOTEHEAD_BLACK, ..heads@[m] }),
        decreases heads@.len() - k,
    {
        let h = &heads[k];
        out.push(NoteHead { step: h.step, head: NOTEHEAD_BLACK, has_stem: h.has_stem, flags: h.flags, midi: h.midi });
        k = k + 1;
    }
    out
}

/// Whether `s` is the step of the head a stem grows from toward its flag or beam: the highest
/// head for a stem pointing up, the lowest for one pointing down.
pub open spec fn is_outer_step(steps: Seq<i32>, stem_down: bool, s: i32) -> bool {
    &&& exists|k: int| 0 <= k < steps.len() && steps[k] == s
    &&& forall|k: int| 0 <= k < steps.len() ==> if stem_down {
        s <= #[trigger] steps[k]
    } else {
        #[trigger] steps[k] <= s
    }
}

/// The steps of some noteheads.
pub open spec fn head_steps(heads: Seq<NoteHead>) -> Seq<i32> {
    heads.map_values(|h: NoteHead| h.step)
}

/// Step of the outermost head of a chord on the stem side (see [`is_outer_step`]).
pub fn outer_step(heads: &Vec<NoteHead>, stem_down: bool) -> (s: i32)
    requires
        heads@.len() > 0,
    ensures
        is_outer_step(head_steps(heads@), stem_down, s),
{
    let ghost steps = head_steps(heads@);
    let mut best = heads[0].step;
    let mut k: usize = 1;
    assert(steps[0] == best);
    while k < heads.len()
        invariant
            1 <= k <= heads@.len(),
            steps == head_steps(heads@),
            exists|m: int| 0 <= m < k && steps[m] == best,
            forall|m: int| 0 <= m < k ==> if stem_down {
                best <= #[trigger] steps[m]
            } else {
                #[trigger] steps[m] <= best
            },
        decreases heads@.len() - k,
    {
        let s = heads[k].step;
        assert(steps[k as int] == s);
        if (stem_down && s < best) || (!stem_down && s > best) {
            best = s;
        }
        k = k + 1;
    }
    best
}

/// Stems of a beamed group: the step each column's stem starts from (its outermost head on the
/// stem side) and the step of the group's outermost head, which the beam line runs a fixed
/// stem length beyond. Stems point up on the treble staff and down on the bass staff.
pub fn beam_stems(columns: &Vec<Vec<NoteHead>>, treble: bool) -> (r: (Vec<i32>, i32))
    requires
        columns@.len() > 0,
        forall|c: int| 0 <= c < columns@.len() ==> (#[trigger] columns@[c])@.len() > 0,
    ensures
        r.0@.len() == columns@.len(),
        forall|c: int| 0 <= c < columns@.len() ==> is_outer_step(head_steps((#[trigger] columns@[c])@), !treble, r.0@[c]),
        is_outer_step(r.0@, !treble, r.1),
{
    let stem_down = !treble;
    let mut outer: Vec<i32> = Vec::new();
    let mut c: usize = 0;
    while c < columns.len()
        invariant
            c <= columns@.len(),
            stem_down == !treble,
            outer@.len() == c,
            forall|m: int| 0 <= m < columns@.len() ==> (#[trigger] columns@[m])@.len() > 0,
            forall|m: int| 0 <= m < c ==> is_outer_step(head_steps((#[trigger] columns@[m])@), stem_down, outer@[m]),
        decreases columns@.len() - c,
    {
        let s = outer_step(&columns[c], stem_down);
        outer.push(s);
        c = c + 1;
    }
    let mut best = outer[0];
    let mut k: usize = 1;
    while k < outer.len()
        invariant
            1 <= k <= outer@.len(),
            exists|m: int| 0 <= m < k && outer@[m] == best,
            forall|m: int| 0 <= m < k ==> if stem_down {
                best <= #[trigger] outer@[m]
            } else {
                #[trigger] outer@[m] <= best
            },
        decreases outer@.len() - k,
    {
        let s = outer[k];
        if (stem_down && s < best) || (!stem_down && s > best) {
            best = s;
        }
        k = k + 1;
    }
    (outer, best)
}

/// Whether a beamed group is drawn as played: a group reads as one unit, so its stems and beams
/// turn to the played colour together, once its last column's onset is at or before the play
/// time `time` (the same moment its last notehead turns).
pub fn group_played(columns: &Vec<VoiceColumn>, last: usize, time: u64) -> (p: bool)
    requires
        last < columns@.len(),
    ensures
        p == (columns@[last as int].t <= time),
{
    columns[last].t <= time
}

} // verus!
