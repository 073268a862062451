//! Voice (staff) assignment of notes and grouping of a staff's notes into columns (chords).
//!
//! Stems follow the voice, not the absolute pitch: with two or more melody tracks the track with
//! the highest average pitch is the high voice (treble, stem up) and every other track the low
//! voice (bass, stem down); with fewer there is no hand information and notes split at middle C.

use vstd::prelude::*;
use crate::beaming::VoiceColumn;

verus! {

/// A note of the song as the staff sees it: onset and stored duration in nanoseconds, MIDI
/// note, MIDI channel (9 is the drum channel) and the track it came from.
pub struct StaffNote {
    pub start: u64,
    pub duration: u64,
    pub note: u8,
    pub channel: u8,
    pub track_id: usize,
}

/// Sum of the pitches of `track`'s notes.
pub open spec fn track_sum(notes: Seq<StaffNote>, track: usize) -> int
    decreases notes.len(),
{
    if notes.len() == 0 {
        0
    } else {
        track_sum(notes.drop_last(), track) + (if notes.last().track_id == track {
            notes.last().note as int
        } else {
            0
        })
    }
}

/// Number of `track`'s notes.
pub open spec fn track_count(notes: Seq<StaffNote>, track: usize) -> int
    decreases notes.len(),
{
    if notes.len() == 0 {
        0
    } else {
        track_count(notes.drop_last(), track) + (if notes.last().track_id == track {
            1int
        } else {
            0
        })
    }
}

/// Whether `track` has at least one note.
pub open spec fn has_track(notes: Seq<StaffNote>, track: usize) -> bool {
    track_count(notes, track) > 0
}

/// Whether the notes come from at least two tracks.
pub open spec fn several_tracks(notes: Seq<StaffNote>) -> bool {
    exists|a: usize, b: usize| a != b && has_track(notes, a) && has_track(notes, b)
}

/// `track`'s average pitch is at least `other`'s (compared exactly, as ratios).
pub open spec fn average_at_least(notes: Seq<StaffNote>, track: usize, other: usize) -> bool {
    track_sum(notes, track) * track_count(notes, other) >= track_sum(notes, other) * track_count(
        notes,
        track,
    )
}

proof fn lemma_track_bounds(notes: Seq<StaffNote>, track: usize)
    ensures
        0 <= track_count(notes, track) <= notes.len(),
        0 <= track_sum(notes, track) <= 255 * track_count(notes, track),
    decreases notes.len(),
{
    if notes.len() > 0 {
        lemma_track_bounds(notes.drop_last(), track);
    }
}

/// Assign the high voice: with notes from two or more tracks, the track with the highest
/// average pitch (any one of them on a tie); with notes from fewer tracks, no track (the staff
/// then splits each chord by pitch). The bound on the number of notes is above what a vector of
/// them can hold in memory; it keeps the exact average comparison within 128-bit integers.
pub fn treble_track(notes: &Vec<StaffNote>) -> (t: Option<usize>)
    requires
        notes@.len() <= 0x3FF_FFFF_FFFF_FFFF,
    ensures
        t is None <==> !several_tracks(notes@),
        t matches Some(id) ==> has_track(notes@, id) && forall|u: usize|
            has_track(notes@, u) ==> #[trigger] average_at_least(notes@, id, u),
{
    let n = notes.len();
    let mut ids: Vec<usize> = Vec::new();
    let mut sums: Vec<u128> = Vec::new();
    let mut counts: Vec<u128> = Vec::new();
    let mut p: usize = 0;
    while p < n
        invariant
            n == notes@.len(),
            n <= 0x3FF_FFFF_FFFF_FFFF,
            p <= n,
            ids@.len() == sums@.len() == counts@.len(),
            forall|a: int, b: int| 0 <= a < b < ids@.len() ==> ids@[a] != ids@[b],
            forall|j: int|
                0 <= j < ids@.len() ==> {
                    &&& sums@[j] == track_sum(notes@.take(p as int), #[trigger] ids@[j])
                    &&& counts@[j] == track_count(notes@.take(p as int), ids@[j])
                    &&& counts@[j] > 0
                },
            forall|t: usize| #[trigger] has_track(notes@.take(p as int), t) ==> exists|j: int| 0 <= j < ids@.len() && ids@[j] == t,
        decreases n - p,
    {
        let id = notes[p].track_id;
        let pitch = notes[p].note;
        let ghost pre = notes@.take(p as int);
        let ghost post = notes@.take(p + 1);
        assert(post.drop_last() =~= pre);
        assert(post.last() == notes@[p as int]);
        proof {
            lemma_track_bounds(pre, id);
        }
        let ghost old_ids = ids@;
        let mut j: usize = 0;
        while j < ids.len() && ids[j] != id
            invariant
                j <= ids@.len(),
                forall|m: int| 0 <= m < j ==> ids@[m] != id,
            decreases ids@.len() - j,
        {
            j = j + 1;
        }
        if j < ids.len() {
            let s = sums[j] + pitch as u128;
            let c = counts[j] + 1;
            sums.set(j, s);
            counts.set(j, c);
        } else {
            assert(!has_track(pre, id)) by {
                if has_track(pre, id) {
                    let m = choose|m: int| 0 <= m < ids@.len() && ids@[m] == id;
                    assert(ids@[m] != id);
                }
            }
            ids.push(id);
            sums.push(pitch as u128);
            counts.push(1);
        }
        proof {
            assert forall|t: usize| #[trigger] has_track(post, t) implies exists|m: int| 0 <= m < ids@.len() && ids@[m] == t by {
                if t != id {
                    assert(has_track(pre, t));
                    let m = choose|m: int| 0 <= m < old_ids.len() && old_ids[m] == t;
                    assert(ids@[m] == t);
                } else {
                    assert(ids@[j as int] == t);
                }
            }
        }
        p = p + 1;
    }
    assert(notes@.take(n as int) =~= notes@);
    if ids.len() < 2 {
        proof {
            if several_tracks(notes@) {
                let (a, b) = choose|a: usize, b: usize| a != b && has_track(notes@, a) && has_track(notes@, b);
                let ja = choose|j: int| 0 <= j < ids@.len() && ids@[j] == a;
                let jb = choose|j: int| 0 <= j < ids@.len() && ids@[j] == b;
                assert(ja != jb);
            }
        }
        return None;
    }
    let mut best: usize = 0;
    let mut j: usize = 1;
    while j < ids.len()
        invariant
            n == notes@.len(),
            n <= 0x3FF_FFFF_FFFF_FFFF,
            2 <= ids@.len() == sums@.len() == counts@.len(),
            forall|j: int|
                0 <= j < ids@.len() ==> {
                    &&& sums@[j] == track_sum(notes@, #[trigger] ids@[j])
                    &&& counts@[j] == track_count(notes@, ids@[j])
                    &&& counts@[j] > 0
                },
            1 <= j <= ids@.len(),
            best < j,
            forall|m: int| 0 <= m < j ==> #[trigger] average_at_least(notes@, ids@[best as int], ids@[m]),
        decreases ids@.len() - j,
    {
        proof {
            lemma_track_bounds(notes@, ids@[j as int]);
            lemma_track_bounds(notes@, ids@[best as int]);
            assert(sums@[j as int] * counts@[best as int] <= 255 * 0x3FF_FFFF_FFFF_FFFF * 0x3FF_FFFF_FFFF_FFFF) by (nonlinear_arith)
                requires
                    sums@[j as int] <= 255 * counts@[j as int],
                    counts@[j as int] <= 0x3FF_FFFF_FFFF_FFFF,
                    counts@[best as int] <= 0x3FF_FFFF_FFFF_FFFF;
            assert(sums@[best as int] * counts@[j as int] <= 255 * 0x3FF_FFFF_FFFF_FFFF * 0x3FF_FFFF_FFFF_FFFF) by (nonlinear_arith)
                requires
                    sums@[best as int] <= 255 * counts@[best as int],
                    counts@[j as int] <= 0x3FF_FFFF_FFFF_FFFF,
                    counts@[best as int] <= 0x3FF_FFFF_FFFF_FFFF;
        }
        if sums[j] * counts[best] > sums[best] * counts[j] {
            proof {
                let nb = ids@[j as int];
                let ob = ids@[best as int];
                assert forall|m: int| 0 <= m < j + 1 implies #[trigger] average_at_least(notes@, nb, ids@[m]) by {
                    if m != j {
                        let u = ids@[m];
                        lemma_track_bounds(notes@, u);
                        assert(average_at_least(notes@, ids@[best as int], ids@[m]));
                        // avg(nb) > avg(ob) >= avg(u)
                        assert(track_sum(notes@, nb) * track_count(notes@, u) >= track_sum(notes@, u) * track_count(notes@, nb)) by (nonlinear_arith)
                            requires
                                track_sum(notes@, nb) * track_count(notes@, ob) > track_sum(notes@, ob) * track_count(notes@, nb),
                                track_sum(notes@, ob) * track_count(notes@, u) >= track_sum(notes@, u) * track_count(notes@, ob),
                                track_count(notes@, ob) > 0,
                                track_count(notes@, nb) > 0,
                                track_count(notes@, u) > 0;
                    }
                }
            }
            best = j;
        }
        j = j + 1;
    }
    proof {
        assert(ids@[0] != ids@[1]);
        assert(has_track(notes@, ids@[0]));
        assert(has_track(notes@, ids@[1]));
        assert forall|u: usize| has_track(notes@, u) implies #[trigger] average_at_least(notes@, ids@[best as int], u) by {
            let m = choose|m: int| 0 <= m < ids@.len() && ids@[m] == u;
            assert(average_at_least(notes@, ids@[best as int], ids@[m]));
        }
    }
    Some(ids[best])
}

/// Which staff (voice) a note belongs to. With a high-voice track assigned, a note is treble
/// exactly when it comes from that track (even where a hand crosses middle C); without one the
/// note splits by pitch at middle C.
pub fn note_is_treble(voice: Option<usize>, track_id: usize, midi: u8) -> (t: bool)
    ensures
        t == match voice {
            Some(id) => track_id == id,
            None => midi >= 60,
        },
{
    match voice {
        Some(id) => track_id == id,
        None => midi >= 60,
    }
}

} // verus!

verus! {

/// The staff (true = treble) a note is drawn on, given the assigned high voice.
pub open spec fn staff_of(voice: Option<usize>, n: StaffNote) -> bool {
    match voice {
        Some(id) => n.track_id == id,
        None => n.note >= 60,
    }
}

/// Whether a note is drawn on the `treble` staff within the time window `lo..=hi`: drum-channel
/// notes (channel 10, index 9) are never drawn.
pub open spec fn drawn_in_window(n: StaffNote, lo: u64, hi: u64, treble: bool, voice: Option<usize>) -> bool {
    &&& lo <= n.start <= hi
    &&& n.channel != 9
    &&& staff_of(voice, n) == treble
}

/// The notes drawn on the staff within the window, in order.
pub open spec fn picked(notes: Seq<StaffNote>, lo: u64, hi: u64, treble: bool, voice: Option<usize>) -> Seq<StaffNote>
    decreases notes.len(),
{
    if notes.len() == 0 {
        Seq::empty()
    } else {
        let rest = picked(notes.drop_last(), lo, hi, treble, voice);
        if drawn_in_window(notes.last(), lo, hi, treble, voice) {
            rest.push(notes.last())
        } else {
            rest
        }
    }
}

/// A note as `(onset, midi, duration)`.
pub open spec fn note_entry(n: StaffNote) -> (u64, u8, u64) {
    (n.start, n.note, n.duration)
}

/// The notes of one column as `(onset, midi, duration)`, all at the column's onset.
pub open spec fn entries_at(t: u64, notes: Seq<(u8, u64)>) -> Seq<(u64, u8, u64)> {
    notes.map_values(|e: (u8, u64)| (t, e.0, e.1))
}

/// All notes of the columns, in order, as `(onset, midi, duration)`.
pub open spec fn column_entries(cols: Seq<VoiceColumn>) -> Seq<(u64, u8, u64)>
    decreases cols.len(),
{
    if cols.len() == 0 {
        Seq::empty()
    } else {
        column_entries(cols.drop_last()) + entries_at(cols.last().t, cols.last().notes@)
    }
}

/// Columns are chords: none is empty and their onsets strictly increase.
pub open spec fn columns_well_formed(cols: Seq<VoiceColumn>) -> bool {
    &&& forall|c: int| 0 <= c < cols.len() ==> (#[trigger] cols[c]).notes@.len() > 0
    &&& forall|a: int, b: int| 0 <= a < b < cols.len() ==> (#[trigger] cols[a]).t < (#[trigger] cols[b]).t
}

/// Notes are in onset order.
pub open spec fn notes_sorted(notes: Seq<StaffNote>) -> bool {
    forall|a: int, b: int| 0 <= a <= b < notes.len() ==> (#[trigger] notes[a]).start <= (#[trigger] notes[b]).start
}

proof fn lemma_picked_skip(notes: Seq<StaffNote>, k: int, m: int, lo: u64, hi: u64, treble: bool, voice: Option<usize>)
    requires
        0 <= k <= m <= notes.len(),
        forall|j: int| k <= j < m ==> !drawn_in_window(#[trigger] notes[j], lo, hi, treble, voice),
    ensures
        picked(notes.take(m), lo, hi, treble, voice) == picked(notes.take(k), lo, hi, treble, voice),
    decreases m - k,
{
    if m > k {
        lemma_picked_skip(notes, k, m - 1, lo, hi, treble, voice);
        assert(notes.take(m).drop_last() =~= notes.take(m - 1));
        assert(notes.take(m).last() == notes[m - 1]);
    }
}

/// The columns (chords) of one staff over the time window `lo..=hi`: the notes drawn there
/// (see [`drawn_in_window`]), in order, with consecutive notes sharing an onset grouped into
/// one column.
pub fn staff_columns(notes: &Vec<StaffNote>, lo: u64, hi: u64, treble: bool, voice: Option<usize>) -> (cols: Vec<VoiceColumn>)
    requires
        notes_sorted(notes@),
    ensures
        column_entries(cols@) == picked(notes@, lo, hi, treble, voice).map_values(|n: StaffNote| note_entry(n)),
        columns_well_formed(cols@),
{
    let n = notes.len();
    let mut k: usize = 0;
    while k < n && notes[k].start < lo
        invariant
            n == notes@.len(),
            k <= n,
            forall|j: int| 0 <= j < k ==> (#[trigger] notes@[j]).start < lo,
        decreases n - k,
    {
        k = k + 1;
    }
    proof {
        lemma_picked_skip(notes@, 0, k as int, lo, hi, treble, voice);
        assert(notes@.take(0) =~= Seq::<StaffNote>::empty());
        assert forall|j: int| k <= j < n implies (#[trigger] notes@[j]).start >= lo by {
            assert(notes@[k as int].start <= notes@[j].start);
        }
    }
    let mut cols: Vec<VoiceColumn> = Vec::new();
    let mut cur_t: u64 = 0;
    let mut cur: Vec<(u8, u64)> = Vec::new();
    while k < n && notes[k].start <= hi
        invariant
            n == notes@.len(),
            notes_sorted(notes@),
            k <= n,
            forall|j: int| k <= j < n ==> (#[trigger] notes@[j]).start >= lo,
            column_entries(cols@) + entries_at(cur_t, cur@) == picked(notes@.take(k as int), lo, hi, treble, voice).map_values(|n: StaffNote| note_entry(n)),
            columns_well_formed(cols@),
            cur@.len() == 0 ==> cols@.len() == 0,
            cols@.len() > 0 ==> cols@[cols@.len() - 1].t < cur_t,
            cur@.len() > 0 ==> exists|m: int| 0 <= m < k && (#[trigger] notes@[m]).start == cur_t,
        decreases n - k,
    {
        let ghost before = picked(notes@.take(k as int), lo, hi, treble, voice);
        assert(notes@.take(k + 1).drop_last() =~= notes@.take(k as int));
        assert(notes@.take(k + 1).last() == notes@[k as int]);
        let start = notes[k].start;
        let midi = notes[k].note;
        let dur = notes[k].duration;
        let included = notes[k].channel != 9 && note_is_treble(voice, notes[k].track_id, midi) == treble;
        assert(included == drawn_in_window(notes@[k as int], lo, hi, treble, voice));
        if included {
            let ghost e = note_entry(notes@[k as int]);
            assert(picked(notes@.take(k + 1), lo, hi, treble, voice) == before.push(notes@[k as int]));
            assert(before.push(notes@[k as int]).map_values(|n: StaffNote| note_entry(n)) =~= before.map_values(|n: StaffNote| note_entry(n)).push(e));
            if cur.len() > 0 && cur_t == start {
                let ghost old_cur = cur@;
                cur.push((midi, dur));
                assert(entries_at(cur_t, cur@) =~= entries_at(cur_t, old_cur).push(e));
            } else {
                if cur.len() > 0 {
                    proof {
                        let m = choose|m: int| 0 <= m < k && (#[trigger] notes@[m]).start == cur_t;
                        assert(notes@[m].start <= notes@[k as int].start);
                    }
                    let ghost old_cols = cols@;
                    let ghost old_entries = entries_at(cur_t, cur@);
                    cols.push(VoiceColumn { t: cur_t, notes: cur });
                    assert(cols@.drop_last() =~= old_cols);
                    assert(column_entries(cols@) == column_entries(old_cols) + old_entries);
                    assert(column_entries(cols@) =~= column_entries(old_cols) + old_entries);
                }
                cur_t = start;
                cur = Vec::new();
                cur.push((midi, dur));
                assert(entries_at(cur_t, cur@) =~= seq![e]);
            }
            assert(column_entries(cols@) + entries_at(cur_t, cur@) =~= picked(notes@.take(k + 1), lo, hi, treble, voice).map_values(|n: StaffNote| note_entry(n)));
        } else {
            assert(picked(notes@.take(k + 1), lo, hi, treble, voice) == before);
        }
        k = k + 1;
    }
    proof {
        assert forall|j: int| k <= j < n implies !drawn_in_window(#[trigger] notes@[j], lo, hi, treble, voice) by {
            assert(notes@[k as int].start <= notes@[j].start);
        }
        lemma_picked_skip(notes@, k as int, n as int, lo, hi, treble, voice);
        assert(notes@.take(n as int) =~= notes@);
    }
    if cur.len() > 0 {
        let ghost old_cols = cols@;
        let ghost old_entries = entries_at(cur_t, cur@);
        cols.push(VoiceColumn { t: cur_t, notes: cur });
        assert(cols@.drop_last() =~= old_cols);
        assert(column_entries(cols@) =~= column_entries(old_cols) + old_entries);
    } else {
        assert(entries_at(cur_t, cur@) =~= Seq::<(u64, u8, u64)>::empty());
        assert(column_entries(cols@) + entries_at(cur_t, cur@) =~= column_entries(cols@));
    }
    cols
}

} // verus!

verus! {

/// How many measures past the visible columns on each side are scanned for ottava runs, so a
/// run's bracket resolves to its true first and last notes.
pub const OTTAVA_LOOKAHEAD_MEASURES: u64 = 4;

/// Build an extended column set for ottava run detection: the visible `columns` sit in the
/// middle, padded with the off-screen columns of the same staff up to
/// `OTTAVA_LOOKAHEAD_MEASURES` measures (of the measure holding the last visible onset) before
/// the first and after the last visible onset. Returns the extended columns and the index at
/// which the visible block begins.
pub fn extend_columns(
    notes: &Vec<StaffNote>,
    columns: Vec<VoiceColumn>,
    measures: &Vec<u64>,
    treble: bool,
    voice: Option<usize>,
) -> (res: (Vec<VoiceColumn>, usize))
    requires
        notes_sorted(notes@),
        crate::timeline::times_sorted(measures@),
    ensures
        ({
            let (ext, off) = res;
            let n = columns@.len();
            &&& off + n <= ext@.len()
            &&& ext@.subrange(off as int, off + n) == columns@
            &&& n == 0 ==> ext@.len() == 0 && off == 0
            &&& n > 0 ==> {
                let first_t = columns@[0].t;
                let last_t = columns@[n - 1].t;
                let span = OTTAVA_LOOKAHEAD_MEASURES * crate::timeline::spec_measure_duration(
                    measures@,
                    crate::timeline::spec_measure_index(measures@, last_t),
                );
                let lo = if first_t >= span { first_t - span } else { 0 };
                let hi = if last_t + span > u64::MAX { u64::MAX as int } else { last_t + span };
                let left = ext@.subrange(0, off as int);
                let right = ext@.subrange(off + n, ext@.len() as int);
                &&& columns_well_formed(left)
                &&& columns_well_formed(right)
                &&& first_t == 0 ==> left.len() == 0
                &&& first_t > 0 ==> column_entries(left) == picked(notes@, lo as u64, (first_t - 1) as u64, treble, voice).map_values(|m: StaffNote| note_entry(m))
                &&& last_t == u64::MAX ==> right.len() == 0
                &&& last_t < u64::MAX ==> column_entries(right) == picked(notes@, (last_t + 1) as u64, hi as u64, treble, voice).map_values(|m: StaffNote| note_entry(m))
            }
        }),
{
    let n = columns.len();
    if n == 0 {
        assert(columns@.subrange(0, 0) =~= columns@);
        return (columns, 0);
    }
    let first_t = columns[0].t;
    let last_t = columns[n - 1].t;
    let mi = crate::timeline::measure_index(measures, last_t);
    proof {
        if mi + 1 < measures@.len() {
            assert(measures@[mi as int] <= measures@[mi + 1]);
        }
    }
    let measure_dur = crate::timeline::measure_duration(measures, mi);
    let span: u128 = OTTAVA_LOOKAHEAD_MEASURES as u128 * measure_dur as u128;
    let ext_lo: u64 = if first_t as u128 >= span {
        (first_t as u128 - span) as u64
    } else {
        0
    };
    let ext_hi: u64 = if last_t as u128 + span > u64::MAX as u128 {
        u64::MAX
    } else {
        (last_t as u128 + span) as u64
    };
    let mut ext: Vec<VoiceColumn> = if first_t > 0 {
        staff_columns(notes, ext_lo, first_t - 1, treble, voice)
    } else {
        Vec::new()
    };
    let vis_offset = ext.len();
    let ghost left = ext@;
    let ghost cols = columns@;
    let mut columns = columns;
    ext.append(&mut columns);
    let right = if last_t < u64::MAX {
        staff_columns(notes, last_t + 1, ext_hi, treble, voice)
    } else {
        Vec::new()
    };
    let ghost mid = ext@;
    let mut right = right;
    let ghost right_s = right@;
    ext.append(&mut right);
    assert(ext@.subrange(0, vis_offset as int) =~= left);
    assert(ext@.subrange(vis_offset as int, vis_offset + n) =~= cols);
    assert(ext@.subrange(vis_offset + n, ext@.len() as int) =~= right_s);
    (ext, vis_offset)
}

} // verus!
