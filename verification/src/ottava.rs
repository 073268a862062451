//! Ottava (8va/8vb/15ma/15mb) runs: notes beyond the three ledger lines the staff has room for
//! are drawn transposed back into the staff under a bracket.

use vstd::prelude::*;
use crate::pitch::{diatonic_step, spec_diatonic_step, spec_top_line_midi, top_line_midi};

verus! {

/// The most diatonic steps a note may sit beyond a staff edge (top or bottom line) before an
/// ottava kicks in: 7 = the space just past the 3rd ledger line; 8 = the 4th ledger line.
pub const OTTAVA_LEDGER_MAX: i32 = 7;

/// A maximal run of consecutive columns that all need the same octave bracket: notes too high
/// get an 8va/15ma bracket above the staff (drawn shifted down), notes too low get an 8vb/15mb
/// bracket below (drawn shifted up). `shift` is the octave count (1 = 8va/8vb, 2 = 15ma/15mb).
pub struct OttavaRun {
    pub start: usize,
    pub end: usize,
    pub shift: u8,
    pub high: bool,
}

/// Staff step of the top line of the treble or bass staff.
pub open spec fn staff_top(treble: bool) -> int {
    spec_diatonic_step(spec_top_line_midi(treble))
}

/// Highest staff step among `notes` (`i32::MIN` when there are none).
pub open spec fn steps_max(notes: Seq<u8>) -> int
    decreases notes.len(),
{
    if notes.len() == 0 {
        i32::MIN as int
    } else {
        let rest = steps_max(notes.drop_last());
        let s = spec_diatonic_step(notes.last() as int);
        if s > rest {
            s
        } else {
            rest
        }
    }
}

/// Lowest staff step among `notes` (`i32::MAX` when there are none).
pub open spec fn steps_min(notes: Seq<u8>) -> int
    decreases notes.len(),
{
    if notes.len() == 0 {
        i32::MAX as int
    } else {
        let rest = steps_min(notes.drop_last());
        let s = spec_diatonic_step(notes.last() as int);
        if s < rest {
            s
        } else {
            rest
        }
    }
}

/// Whether a column needs an ottava and which: `Some(true)` when its highest note lies more
/// than `OTTAVA_LEDGER_MAX` steps above the top line, else `Some(false)` when its lowest lies
/// that far below the bottom line (eight steps under the top line), else `None`. An empty column
/// needs none.
pub open spec fn column_kind(notes: Seq<u8>, treble: bool) -> Option<bool> {
    let top = staff_top(treble);
    let hi = if notes.len() == 0 {
        top
    } else {
        steps_max(notes)
    };
    let lo = if notes.len() == 0 {
        top
    } else {
        steps_min(notes)
    };
    if hi - top > OTTAVA_LEDGER_MAX {
        Some(true)
    } else if (top - 8) - lo > OTTAVA_LEDGER_MAX {
        Some(false)
    } else {
        None
    }
}

/// Highest staff step over the columns `s..e`.
pub open spec fn cols_max(cols: Seq<Seq<u8>>, s: int, e: int) -> int
    decreases e - s,
{
    if e <= s {
        i32::MIN as int
    } else {
        let rest = cols_max(cols, s, e - 1);
        let m = steps_max(cols[e - 1]);
        if m > rest {
            m
        } else {
            rest
        }
    }
}

/// Lowest staff step over the columns `s..e`.
pub open spec fn cols_min(cols: Seq<Seq<u8>>, s: int, e: int) -> int
    decreases e - s,
{
    if e <= s {
        i32::MAX as int
    } else {
        let rest = cols_min(cols, s, e - 1);
        let m = steps_min(cols[e - 1]);
        if m < rest {
            m
        } else {
            rest
        }
    }
}

/// Octave count of a run: the smallest number of octaves (at least one, at most two) that
/// brings the run's extreme note back within `OTTAVA_LEDGER_MAX` steps of the staff.
pub open spec fn run_shift(high: bool, treble: bool, hi: int, lo: int) -> u8 {
    let top = staff_top(treble);
    let excess = if high {
        hi - (top + OTTAVA_LEDGER_MAX)
    } else {
        ((top - 8) - OTTAVA_LEDGER_MAX) - lo
    };
    let octaves = (excess + 6) / 7;
    if octaves < 1 {
        1
    } else if octaves > 2 {
        2
    } else {
        octaves as u8
    }
}

/// `runs` are exactly the maximal runs of consecutive columns that need the same ottava, in
/// order, each with its octave count.
pub open spec fn ottava_runs_spec(cols: Seq<Seq<u8>>, treble: bool, runs: Seq<OttavaRun>) -> bool {
    &&& forall|k: int|
        #![trigger runs[k]]
        0 <= k < runs.len() ==> {
            let r = runs[k];
            &&& r.start <= r.end < cols.len()
            &&& forall|c: int| r.start <= c <= r.end ==> column_kind(#[trigger] cols[c], treble) == Some(r.high)
            &&& (r.start == 0 || column_kind(cols[r.start - 1], treble) != Some(r.high))
            &&& (r.end + 1 == cols.len() || column_kind(cols[r.end + 1], treble) != Some(r.high))
            &&& r.shift == run_shift(
                r.high,
                treble,
                cols_max(cols, r.start as int, r.end + 1),
                cols_min(cols, r.start as int, r.end + 1),
            )
        }
    &&& forall|k: int| 0 <= k < runs.len() - 1 ==> #[trigger] runs[k].end < runs[k + 1].start
    &&& forall|c: int|
        0 <= c < cols.len() && column_kind(#[trigger] cols[c], treble) is Some ==> exists|k: int|
            0 <= k < runs.len() && #[trigger] runs[k].start <= c <= runs[k].end
}

/// A run's octave count is the smallest that brings its extreme note back within
/// `OTTAVA_LEDGER_MAX` steps of the staff, capped at two: one octave exactly when one suffices,
/// and two whenever two suffice.
pub proof fn lemma_run_shift_smallest(high: bool, treble: bool, hi: int, lo: int)
    requires
        high ==> hi - staff_top(treble) > OTTAVA_LEDGER_MAX,
        !high ==> (staff_top(treble) - 8) - lo > OTTAVA_LEDGER_MAX,
    ensures
        1 <= run_shift(high, treble, hi, lo) <= 2,
        high ==> (run_shift(high, treble, hi, lo) == 1 <==> hi - 7 <= staff_top(treble) + OTTAVA_LEDGER_MAX),
        high && hi - 14 <= staff_top(treble) + OTTAVA_LEDGER_MAX ==> hi - 7 * run_shift(high, treble, hi, lo)
            <= staff_top(treble) + OTTAVA_LEDGER_MAX,
        !high ==> (run_shift(high, treble, hi, lo) == 1 <==> lo + 7 >= (staff_top(treble) - 8) - OTTAVA_LEDGER_MAX),
        !high && lo + 14 >= (staff_top(treble) - 8) - OTTAVA_LEDGER_MAX ==> lo + 7 * run_shift(high, treble, hi, lo)
            >= (staff_top(treble) - 8) - OTTAVA_LEDGER_MAX,
{
}

/// The highest step of a chord exceeds `x` exactly when one of its notes does, and its lowest
/// step lies under `y` exactly when one of its notes does.
proof fn lemma_extremes_exceed(notes: Seq<u8>, x: int, y: int)
    requires
        notes.len() > 0,
    ensures
        steps_max(notes) > x <==> exists|k: int| 0 <= k < notes.len() && spec_diatonic_step(notes[k] as int) > x,
        steps_min(notes) < y <==> exists|k: int| 0 <= k < notes.len() && spec_diatonic_step(notes[k] as int) < y,
    decreases notes.len(),
{
    let rest = notes.drop_last();
    let n = notes.len() - 1;
    lemma_step_range(notes.last());
    if rest.len() > 0 {
        lemma_extremes_exceed(rest, x, y);
        lemma_steps_bounds(rest);
    }
    if steps_max(notes) > x {
        if spec_diatonic_step(notes.last() as int) > steps_max(rest) {
            assert(spec_diatonic_step(notes[n] as int) > x);
        } else {
            let k = choose|k: int| 0 <= k < rest.len() && spec_diatonic_step(rest[k] as int) > x;
            assert(spec_diatonic_step(notes[k] as int) > x);
        }
    }
    if exists|k: int| 0 <= k < notes.len() && spec_diatonic_step(notes[k] as int) > x {
        let k = choose|k: int| 0 <= k < notes.len() && spec_diatonic_step(notes[k] as int) > x;
        if k < n {
            assert(rest[k] == notes[k]);
        }
    }
    if steps_min(notes) < y {
        if spec_diatonic_step(notes.last() as int) < steps_min(rest) {
            assert(spec_diatonic_step(notes[n] as int) < y);
        } else {
            let k = choose|k: int| 0 <= k < rest.len() && spec_diatonic_step(rest[k] as int) < y;
            assert(spec_diatonic_step(notes[k] as int) < y);
        }
    }
    if exists|k: int| 0 <= k < notes.len() && spec_diatonic_step(notes[k] as int) < y {
        let k = choose|k: int| 0 <= k < notes.len() && spec_diatonic_step(notes[k] as int) < y;
        if k < n {
            assert(rest[k] == notes[k]);
        }
    }
}

/// A column goes under a high bracket exactly when some note of it (any, whatever the order)
/// lies more than `OTTAVA_LEDGER_MAX` steps above the top line; otherwise under a low bracket
/// exactly when some note lies that far below the bottom line (eight steps under the top line);
/// an empty column needs none.
pub proof fn lemma_column_kind_by_notes(notes: Seq<u8>, treble: bool)
    ensures
        ({
            let top = spec_diatonic_step(spec_top_line_midi(treble) as int);
            let high = exists|k: int| 0 <= k < notes.len() && spec_diatonic_step(notes[k] as int) - top > 7;
            let low = exists|k: int| 0 <= k < notes.len() && (top - 8) - spec_diatonic_step(notes[k] as int) > 7;
            &&& column_kind(notes, treble) == Some(true) <==> high
            &&& column_kind(notes, treble) == Some(false) <==> !high && low
            &&& column_kind(notes, treble) is None <==> !high && !low
        }),
{
    let top = staff_top(treble);
    if notes.len() > 0 {
        lemma_extremes_exceed(notes, top + 7, top - 15);
    }
}

/// Every byte-sized note number lies between step -7 and step 141.
pub proof fn lemma_step_range(midi: u8)
    ensures
        -7 <= spec_diatonic_step(midi as int) <= 141,
{
    assert(midi as int / 12 <= 21);
    if midi as int / 12 == 21 {
        assert(midi as int % 12 <= 3);
    }
}

/// The extreme steps of a non-empty chord are steps of MIDI notes.
pub proof fn lemma_steps_bounds(notes: Seq<u8>)
    requires
        notes.len() > 0,
    ensures
        -7 <= steps_max(notes) <= 141,
        -7 <= steps_min(notes) <= 141,
    decreases notes.len(),
{
    lemma_step_range(notes.last());
    if notes.len() > 1 {
        lemma_steps_bounds(notes.drop_last());
    } else {
        assert(steps_max(notes.drop_last()) == i32::MIN);
        assert(steps_min(notes.drop_last()) == i32::MAX);
    }
}

/// The extreme steps over a range of non-empty columns are steps of MIDI notes.
pub proof fn lemma_cols_bounds(cols: Seq<Seq<u8>>, s: int, e: int)
    requires
        s < e <= cols.len(),
        0 <= s,
        forall|c: int| s <= c < e ==> #[trigger] cols[c].len() > 0,
    ensures
        -7 <= cols_max(cols, s, e) <= 141,
        -7 <= cols_min(cols, s, e) <= 141,
    decreases e - s,
{
    lemma_steps_bounds(cols[e - 1]);
    if e - 1 > s {
        lemma_cols_bounds(cols, s, e - 1);
    } else {
        assert(cols_max(cols, s, e - 1) == i32::MIN);
        assert(cols_min(cols, s, e - 1) == i32::MAX);
    }
}

/// Whether the column needs an ottava (see [`column_kind`]).
fn kind_of(notes: &Vec<u8>, top: i32) -> (k: Option<bool>)
    requires
        top == staff_top(true) || top == staff_top(false),
    ensures
        top == staff_top(true) ==> k == column_kind(notes@, true),
        top == staff_top(false) ==> k == column_kind(notes@, false),
{
    let mut max_step: i32 = i32::MIN;
    let mut min_step: i32 = i32::MAX;
    let mut i: usize = 0;
    while i < notes.len()
        invariant
            i <= notes@.len(),
            max_step == steps_max(notes@.take(i as int)),
            min_step == steps_min(notes@.take(i as int)),
            i > 0 ==> -7 <= max_step <= 141 && -7 <= min_step <= 141,
        decreases notes@.len() - i,
    {
        let s = diatonic_step(notes[i]);
        assert(notes@.take(i + 1).drop_last() =~= notes@.take(i as int));
        proof {
            lemma_steps_bounds(notes@.take(i + 1));
        }
        if s > max_step {
            max_step = s;
        }
        if s < min_step {
            min_step = s;
        }
        i = i + 1;
    }
    assert(notes@.take(notes@.len() as int) =~= notes@);
    if notes.len() == 0 {
        max_step = top;
        min_step = top;
    }
    if max_step - top > OTTAVA_LEDGER_MAX {
        Some(true)
    } else if (top - 8) - min_step > OTTAVA_LEDGER_MAX {
        Some(false)
    } else {
        None
    }
}

/// Find maximal runs of consecutive columns whose notes need an octave bracket — i.e. they'd
/// land beyond the 3 ledger lines we have room for (more than `OTTAVA_LEDGER_MAX` diatonic
/// steps past a staff edge). Each run is uniformly high (8va/15ma) or low (8vb/15mb); a column
/// with both an out-of-range high and low note is treated as high. The shift is the smallest
/// octave count (capped at 2) that brings the run's extreme note back inside the range.
#[verifier::rlimit(60)]
#[verifier::spinoff_prover]
pub fn ottava_runs(columns: &Vec<Vec<u8>>, treble: bool) -> (runs: Vec<OttavaRun>)
    ensures
        ottava_runs_spec(columns@.map_values(|c: Vec<u8>| c@), treble, runs@),
{
    let ghost cols = columns@.map_values(|c: Vec<u8>| c@);
    let top = diatonic_step(top_line_midi(treble));
    assert(top == staff_top(treble));
    let mut runs: Vec<OttavaRun> = Vec::new();
    let n = columns.len();
    let mut i: usize = 0;
    while i < n
        invariant
            n == columns@.len(),
            cols == columns@.map_values(|c: Vec<u8>| c@),
            top == staff_top(treble),
            i <= n,
            0 < i < n ==> column_kind(cols[i - 1], treble) is None || column_kind(cols[i - 1], treble) != column_kind(cols[i as int], treble),
            forall|k: int|
                #![trigger runs@[k]]
                0 <= k < runs@.len() ==> {
                    let r = runs@[k];
                    &&& r.start <= r.end < i
                    &&& forall|c: int| r.start <= c <= r.end ==> column_kind(#[trigger] cols[c], treble) == Some(r.high)
                    &&& (r.start == 0 || column_kind(cols[r.start - 1], treble) != Some(r.high))
                    &&& (r.end + 1 == n || column_kind(cols[r.end + 1], treble) != Some(r.high))
                    &&& r.shift == run_shift(
                        r.high,
                        treble,
                        cols_max(cols, r.start as int, r.end + 1),
                        cols_min(cols, r.start as int, r.end + 1),
                    )
                },
            forall|k: int| 0 <= k < runs@.len() - 1 ==> #[trigger] runs@[k].end < runs@[k + 1].start,
            forall|c: int|
                0 <= c < i && column_kind(#[trigger] cols[c], treble) is Some ==> exists|k: int|
                    0 <= k < runs@.len() && #[trigger] runs@[k].start <= c <= runs@[k].end,
        decreases n - i,
    {
        let kind = kind_of(&columns[i], top);
        match kind {
            None => {
                i = i + 1;
            },
            Some(is_high) => {
                let mut j = i;
                let mut run_max: i32 = i32::MIN;
                let mut run_min: i32 = i32::MAX;
                let mut go = true;
                while go && j < n
                    invariant
                        n == columns@.len(),
                        cols == columns@.map_values(|c: Vec<u8>| c@),
                        top == staff_top(treble),
                        i < n,
                        column_kind(cols[i as int], treble) == Some(is_high),
                        i <= j <= n,
                        go ==> j > i ==> true,
                        !go ==> j < n && j > i && column_kind(cols[j as int], treble) != Some(is_high),
                        forall|c: int| i <= c < j ==> column_kind(#[trigger] cols[c], treble) == Some(is_high),
                        j == i ==> go,
                        run_max == cols_max(cols, i as int, j as int),
                        run_min == cols_min(cols, i as int, j as int),
                        j > i ==> -7 <= run_max <= 141 && -7 <= run_min <= 141,
                    decreases n - j, (if go { 1int } else { 0int }),
                {
                    let kj = kind_of(&columns[j], top);
                    let same = match kj {
                        Some(h) => h == is_high,
                        None => false,
                    };
                    if same {
                        let col = &columns[j];
                        let mut m: usize = 0;
                        let ghost before_max: int = run_max as int;
                        let ghost before_min: int = run_min as int;
                        while m < col.len()
                            invariant
                                m <= col@.len(),
                                run_max == (if steps_max(col@.take(m as int)) > before_max { steps_max(col@.take(m as int)) } else { before_max }),
                                run_min == (if steps_min(col@.take(m as int)) < before_min { steps_min(col@.take(m as int)) } else { before_min }),
                            decreases col@.len() - m,
                        {
                            let s = diatonic_step(col[m]);
                            assert(col@.take(m + 1).drop_last() =~= col@.take(m as int));
                            if s > run_max {
                                run_max = s;
                            }
                            if s < run_min {
                                run_min = s;
                            }
                            m = m + 1;
                        }
                        assert(col@.take(col@.len() as int) =~= col@);
                        assert(cols[j as int] == col@);
                        proof {
                            assert forall|c: int| i <= c < j + 1 implies #[trigger] cols[c].len() > 0 by {
                                assert(column_kind(cols[c], treble) is Some);
                            }
                            lemma_cols_bounds(cols, i as int, j + 1);
                        }
                        j = j + 1;
                    } else {
                        go = false;
                    }
                }
                assert(j > i);
                let excess = if is_high {
                    run_max - (top + OTTAVA_LEDGER_MAX)
                } else {
                    (top - 8 - OTTAVA_LEDGER_MAX) - run_min
                };
                let mut octaves = (excess + 6) / 7;
                if octaves < 1 {
                    octaves = 1;
                }
                let shift: u8 = if octaves > 2 {
                    2
                } else {
                    octaves as u8
                };
                let ghost old_runs = runs@;
                runs.push(OttavaRun { start: i, end: j - 1, shift, high: is_high });
                proof {
                    assert forall|c: int|
                        0 <= c < j && column_kind(#[trigger] cols[c], treble) is Some implies exists|k: int|
                            0 <= k < runs@.len() && #[trigger] runs@[k].start <= c <= runs@[k].end by {
                        if c < i {
                            let k = choose|k: int| 0 <= k < old_runs.len() && #[trigger] old_runs[k].start <= c <= old_runs[k].end;
                            assert(runs@[k] == old_runs[k]);
                        } else {
                            assert(runs@[runs@.len() - 1].start <= c <= runs@[runs@.len() - 1].end);
                        }
                    }
                }
                i = j;
            },
        }
    }
    runs
}

} // verus!

verus! {

/// Draw shift of a run in diatonic steps: a high run is drawn `7 * shift` steps lower, a low run
/// that much higher.
pub open spec fn run_offset(r: OttavaRun) -> int {
    if r.high {
        -7 * r.shift
    } else {
        7 * r.shift
    }
}

/// Shift applied to column `idx`: the offset of the last run in `runs` covering it, 0 if none.
pub open spec fn shift_at(runs: Seq<OttavaRun>, idx: int) -> int
    decreases runs.len(),
{
    if runs.len() == 0 {
        0
    } else if runs.last().start <= idx <= runs.last().end {
        run_offset(runs.last())
    } else {
        shift_at(runs.drop_last(), idx)
    }
}

fn clamp_index(v: usize, lo: usize, hi: usize) -> (r: usize)
    requires
        lo <= hi,
    ensures
        r == (if v < lo {
            lo
        } else if v > hi {
            hi
        } else {
            v
        }),
{
    if v < lo {
        lo
    } else if v > hi {
        hi
    } else {
        v
    }
}

/// Per-column draw shift for the visible columns: the runs index an extended column set in
/// which the `n` visible columns start at `vis_offset`; each visible column gets the shift of the
/// run covering it (runs that lie wholly outside the visible block contribute nothing).
pub fn column_shifts(runs: &Vec<OttavaRun>, vis_offset: usize, n: usize) -> (s: Vec<i32>)
    requires
        vis_offset + n <= usize::MAX,
    ensures
        s@.len() == n,
        forall|k: int| 0 <= k < n ==> #[trigger] s@[k] as int == shift_at(runs@, vis_offset + k),
{
    let vis_end = vis_offset + n;
    let mut s: Vec<i32> = Vec::new();
    let mut k: usize = 0;
    while k < n
        invariant
            k <= n,
            s@.len() == k,
            forall|m: int| 0 <= m < k ==> s@[m] == 0,
        decreases n - k,
    {
        s.push(0);
        k = k + 1;
    }
    let mut ri: usize = 0;
    while ri < runs.len()
        invariant
            ri <= runs@.len(),
            vis_end == vis_offset + n,
            s@.len() == n,
            forall|m: int| 0 <= m < n ==> #[trigger] s@[m] as int == shift_at(runs@.take(ri as int), vis_offset + m),
        decreases runs@.len() - ri,
    {
        let r = &runs[ri];
        let magnitude: i32 = 7 * (r.shift as i32);
        let v: i32 = if r.high {
            -magnitude
        } else {
            magnitude
        };
        assert(v as int == run_offset(runs@[ri as int]));
        let lo = clamp_index(r.start, vis_offset, vis_end) - vis_offset;
        let hi = clamp_index(r.end.saturating_add(1), vis_offset, vis_end) - vis_offset;
        let ghost prev = s@;
        let mut k: usize = lo;
        while k < hi
            invariant
                lo <= k,
                k <= hi || k == lo,
                hi <= n,
                s@.len() == n,
                prev.len() == n,
                forall|m: int| 0 <= m < n && !(lo <= m < k) ==> #[trigger] s@[m] == prev[m],
                forall|m: int| lo <= m < k ==> #[trigger] s@[m] == v,
            decreases hi - k,
        {
            s.set(k, v);
            k = k + 1;
        }
        proof {
            let rs = runs@.take(ri + 1);
            assert(rs.drop_last() =~= runs@.take(ri as int));
            assert(rs.last() == runs@[ri as int]);
            assert forall|m: int| 0 <= m < n implies #[trigger] s@[m] as int == shift_at(rs, vis_offset + m) by {
                if lo <= m < hi {
                    assert(r.start <= vis_offset + m <= r.end);
                } else {
                    assert(!(r.start <= vis_offset + m <= r.end));
                }
            }
        }
        ri = ri + 1;
    }
    assert(runs@.take(runs@.len() as int) =~= runs@);
    s
}

/// Whether a run's bracket shows: its span overlaps the visible block of `n` columns starting at
/// `vis_offset`.
pub fn run_visible(r: &OttavaRun, vis_offset: usize, n: usize) -> (v: bool)
    requires
        vis_offset + n <= usize::MAX,
    ensures
        v == (r.start < vis_offset + n && r.end >= vis_offset),
{
    r.start < vis_offset + n && r.end >= vis_offset
}

} // verus!
