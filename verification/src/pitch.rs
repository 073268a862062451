//! Pitch -> staff position mapping for the grand staff.

use vstd::prelude::*;

verus! {

/// Diatonic degree (0 = C .. 6 = B) of a pitch class `pc` in `0..12`; a sharp shares the degree
/// of the natural below it.
pub open spec fn degree_of(pc: int) -> int {
    if pc <= 1 {
        0
    } else if pc <= 3 {
        1
    } else if pc == 4 {
        2
    } else if pc <= 6 {
        3
    } else if pc <= 8 {
        4
    } else if pc <= 10 {
        5
    } else {
        6
    }
}

/// Diatonic staff step of a MIDI note: seven steps per octave, MIDI 0 == C-1.
pub open spec fn spec_diatonic_step(midi: int) -> int {
    (midi / 12 - 1) * 7 + degree_of(midi % 12)
}

/// Black keys are the pitch classes 1, 3, 6, 8 and 10 (C#, D#, F#, G#, A#).
pub open spec fn spec_is_black_key(midi: int) -> bool {
    let pc = midi % 12;
    pc == 1 || pc == 3 || pc == 6 || pc == 8 || pc == 10
}

/// The MIDI note of the top line of each staff: F5 (77) for treble, A3 (57) for bass.
pub open spec fn spec_top_line_midi(treble: bool) -> int {
    if treble {
        77
    } else {
        57
    }
}

/// Ledger-line steps between a staff edge and `note`: every other step going outward from the
/// bottom line (below the staff) or from the top line (above it), up to and including `note`.
pub open spec fn spec_ledger_steps(top: int, bottom: int, note: int) -> Seq<int> {
    if note < bottom {
        Seq::new(((bottom - note) / 2) as nat, |i: int| bottom - 2 * (i + 1))
    } else if note > top {
        Seq::new(((note - top) / 2) as nat, |i: int| top + 2 * (i + 1))
    } else {
        Seq::empty()
    }
}

/// Raising a note by an octave raises its staff step by exactly seven.
pub proof fn lemma_octave_adds_seven_steps(midi: int)
    requires
        midi >= 0,
    ensures
        spec_diatonic_step(midi + 12) == spec_diatonic_step(midi) + 7,
{
    assert((midi + 12) / 12 == midi / 12 + 1);
    assert((midi + 12) % 12 == midi % 12);
}

/// Going up one semitone raises the staff step by one exactly when the new note is a white key,
/// and keeps it when the new note is a black key (a sharp shares its natural's step).
pub proof fn lemma_semitone_step(midi: int)
    requires
        midi >= 0,
    ensures
        spec_is_black_key(midi + 1) ==> spec_diatonic_step(midi + 1) == spec_diatonic_step(midi),
        !spec_is_black_key(midi + 1) ==> spec_diatonic_step(midi + 1) == spec_diatonic_step(midi) + 1,
{
    if midi % 12 == 11 {
        assert((midi + 1) / 12 == midi / 12 + 1);
        assert((midi + 1) % 12 == 0);
    } else {
        assert((midi + 1) / 12 == midi / 12);
        assert((midi + 1) % 12 == midi % 12 + 1);
    }
}

/// The staff step never decreases as the pitch rises.
pub proof fn lemma_step_monotone(a: int, b: int)
    requires
        0 <= a <= b,
    ensures
        spec_diatonic_step(a) <= spec_diatonic_step(b),
    decreases b - a,
{
    if a < b {
        lemma_step_monotone(a, b - 1);
        lemma_semitone_step(b - 1);
    }
}

/// Every ledger line lies outside the staff, on the line pattern of the staff edge it continues
/// (same parity as that edge), and no farther out than the note itself.
pub proof fn lemma_ledger_lines_outside_staff(top: int, bottom: int, note: int, i: int)
    requires
        0 <= i < spec_ledger_steps(top, bottom, note).len(),
    ensures
        note < bottom ==> {
            let s = spec_ledger_steps(top, bottom, note)[i];
            &&& note <= s < bottom
            &&& (bottom - s) % 2 == 0
        },
        note >= bottom ==> {
            let s = spec_ledger_steps(top, bottom, note)[i];
            &&& top < s <= note
            &&& (s - top) % 2 == 0
        },
{
}

/// A note inside the staff (between its bottom and top lines) needs no ledger line, and a note
/// `k` steps beyond an edge needs `k / 2` of them.
pub proof fn lemma_ledger_line_count(top: int, bottom: int, note: int)
    requires
        bottom <= top,
    ensures
        bottom <= note <= top ==> spec_ledger_steps(top, bottom, note).len() == 0,
        note < bottom ==> spec_ledger_steps(top, bottom, note).len() == (bottom - note) / 2,
        note > top ==> spec_ledger_steps(top, bottom, note).len() == (note - top) / 2,
{
}

/// Degree of a pitch class (`pc < 12`).
pub fn pitch_class_degree(pc: u8) -> (d: i32)
    requires
        pc < 12,
    ensures
        d == degree_of(pc as int),
{
    match pc {
        0 | 1 => 0,
        2 | 3 => 1,
        4 => 2,
        5 | 6 => 3,
        7 | 8 => 4,
        9 | 10 => 5,
        _ => 6,
    }
}

/// Diatonic "staff step" of a MIDI note. Each white key increases the step by 1; a sharp shares
/// its natural's step (e.g. C# == C). MIDI 0 == C-1, so `octave = midi/12 - 1`.
///
/// Going up one step == one staff position (line -> space -> line ...). Two steps == one
/// "line gap" (line to the next line).
pub fn diatonic_step(midi: u8) -> (s: i32)
    ensures
        s == spec_diatonic_step(midi as int),
{
    let octave = (midi / 12) as i32 - 1;
    octave * 7 + pitch_class_degree(midi % 12)
}

/// Which staff a note belongs to. Split at middle C (MIDI 60): C4 and above -> treble, below ->
/// bass.
pub fn is_treble(midi: u8) -> (t: bool)
    ensures
        t == (midi >= 60),
{
    midi >= 60
}

/// MIDI note of the *top line* of each staff. Treble top line = F5 (77), bass top line = A3 (57).
pub fn top_line_midi(treble: bool) -> (m: u8)
    ensures
        m == spec_top_line_midi(treble),
{
    if treble {
        77
    } else {
        57
    }
}

/// Vertical extent of one staff, as the diatonic steps of its top and bottom lines.
pub struct StaffBounds {
    /// step of the top line
    pub top: i32,
    /// step of the bottom line
    pub bottom: i32,
}

impl StaffBounds {
    /// Ledger-line staff positions (every other step, continuing the line pattern) that sit
    /// between the staff edge and `note_step` (inclusive of the line just outside the note).
    /// Returns their diatonic steps (caller converts to y).
    pub fn ledger_steps(&self, note_step: i32) -> (out: Vec<i32>)
        requires
            i32::MIN + 2 <= note_step <= i32::MAX - 2,
        ensures
            out@.len() == spec_ledger_steps(self.top as int, self.bottom as int, note_step as int).len(),
            forall|i: int|
                0 <= i < out@.len() ==> out@[i] as int == spec_ledger_steps(
                    self.top as int,
                    self.bottom as int,
                    note_step as int,
                )[i],
    {
        let mut out: Vec<i32> = Vec::new();
        if note_step < self.bottom {
            // ledger lines continue below: bottom-2, bottom-4, ... while >= note_step (same
            // parity as bottom)
            let mut s: i32 = self.bottom - 2;
            while s >= note_step
                invariant
                    note_step < self.bottom,
                    i32::MIN + 2 <= note_step,
                    s == self.bottom - 2 * (out@.len() + 1),
                    s + 2 >= note_step,
                    forall|i: int| 0 <= i < out@.len() ==> out@[i] == self.bottom - 2 * (i + 1),
                decreases s - note_step + 2,
            {
                out.push(s);
                s = s - 2;
            }
        } else if note_step > self.top {
            let mut s: i32 = self.top + 2;
            while s <= note_step
                invariant
                    note_step > self.top,
                    note_step <= i32::MAX - 2,
                    s == self.top + 2 * (out@.len() + 1),
                    s - 2 <= note_step,
                    forall|i: int| 0 <= i < out@.len() ==> out@[i] == self.top + 2 * (i + 1),
                decreases note_step - s + 2,
            {
                out.push(s);
                s = s + 2;
            }
        }
        out
    }
}

/// Pitch class accidental for a note, as the offset in semitones from its natural: 0 (white key),
/// or +1 (a black key). Used together with the key signature to decide whether to draw a sharp or
/// flat.
pub fn is_black_key(midi: u8) -> (b: bool)
    ensures
        b == spec_is_black_key(midi as int),
{
    let pc = midi % 12;
    pc == 1 || pc == 3 || pc == 6 || pc == 8 || pc == 10
}

} // verus!
