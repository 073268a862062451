//! Settings-page steppers: the played piano range and its spin buttons.

use vstd::prelude::*;

verus! {

/// What a settings row's spin buttons reported this frame.
#[derive(PartialEq, Eq, Structural, Clone, Copy, Debug)]
pub enum SpinResult {
    Plus,
    Minus,
    Idle,
}

/// The MIDI note range drawn on the keyboard, both ends inclusive.
#[derive(PartialEq, Eq, Structural, Clone, Copy, Debug)]
pub struct PianoRange {
    pub start: u8,
    pub end: u8,
}

/// The smallest span the range steppers keep between the two ends: the end stays more than
/// this many notes above the start.
pub const MIN_RANGE_GAP: u8 = 24;

/// Whether the range keeps the steppers' minimum span.
pub open spec fn keeps_gap(r: PianoRange) -> bool {
    r.start + MIN_RANGE_GAP < r.end
}

/// The standard 88-key range, A0 (21) to C8 (108): what the range is reset to.
pub fn default_piano_range() -> (r: PianoRange)
    ensures
        r == (PianoRange { start: 21, end: 108 }),
        keeps_gap(r),
{
    PianoRange { start: 21, end: 108 }
}

/// Range after one step of the start stepper.
pub open spec fn spec_range_start_step(r: PianoRange, kind: SpinResult) -> PianoRange {
    match kind {
        SpinResult::Plus => {
            let v = if r.start + 1 < 127 { r.start + 1 } else { 127 };
            if v + MIN_RANGE_GAP < r.end {
                PianoRange { start: v as u8, end: r.end }
            } else {
                r
            }
        },
        SpinResult::Minus => PianoRange { start: if r.start > 0 { (r.start - 1) as u8 } else { 0 }, end: r.end },
        SpinResult::Idle => r,
    }
}

/// Range after one step of the end stepper.
pub open spec fn spec_range_end_step(r: PianoRange, kind: SpinResult) -> PianoRange {
    match kind {
        SpinResult::Plus => PianoRange { start: r.start, end: (r.end + 1) as u8 },
        SpinResult::Minus => {
            let v = if r.end > 0 { r.end - 1 } else { 0 };
            if r.start + MIN_RANGE_GAP < v {
                PianoRange { start: r.start, end: v as u8 }
            } else {
                r
            }
        },
        SpinResult::Idle => r,
    }
}

/// Start stepper: Plus raises the start by one (at most to 127) when the end stays more than
/// the minimum span above it, Minus lowers it by one (not below 0), Idle changes nothing.
pub fn update_range_start(range: PianoRange, kind: SpinResult) -> (r: PianoRange)
    requires
        kind == SpinResult::Plus ==> range.start < 255,
    ensures
        r == spec_range_start_step(range, kind),
{
    match kind {
        SpinResult::Plus => {
            let v = if range.start + 1 < 127 { range.start + 1 } else { 127 };
            if v + MIN_RANGE_GAP < range.end {
                PianoRange { start: v, end: range.end }
            } else {
                range
            }
        },
        SpinResult::Minus => PianoRange { start: range.start.saturating_sub(1), end: range.end },
        SpinResult::Idle => range,
    }
}

/// End stepper: Plus raises the end by one, Minus lowers it by one (not below 0) when it stays
/// more than the minimum span above the start, Idle changes nothing.
pub fn update_range_end(range: PianoRange, kind: SpinResult) -> (r: PianoRange)
    requires
        kind == SpinResult::Plus ==> range.end < 255,
        kind == SpinResult::Minus ==> range.start + MIN_RANGE_GAP <= 255,
    ensures
        r == spec_range_end_step(range, kind),
{
    match kind {
        SpinResult::Plus => PianoRange { start: range.start, end: range.end + 1 },
        SpinResult::Minus => {
            let v = range.end.saturating_sub(1);
            if range.start + MIN_RANGE_GAP < v {
                PianoRange { start: range.start, end: v }
            } else {
                range
            }
        },
        SpinResult::Idle => range,
    }
}

/// A range that keeps the minimum span still keeps it after any step of either stepper.
pub proof fn lemma_steps_keep_gap(r: PianoRange, kind: SpinResult)
    requires
        keeps_gap(r),
        kind == SpinResult::Plus ==> r.end < 255,
    ensures
        keeps_gap(spec_range_start_step(r, kind)),
        keeps_gap(spec_range_end_step(r, kind)),
{
}

/// Neither stepper ever moves the other end of the range.
pub proof fn lemma_steps_touch_one_end(r: PianoRange, kind: SpinResult)
    ensures
        spec_range_start_step(r, kind).end == r.end,
        spec_range_end_step(r, kind).start == r.start,
{
}

/// When a Plus on the start stepper moved the start, a Minus takes it back.
pub proof fn lemma_start_minus_undoes_plus(r: PianoRange)
    requires
        r.start < 127,
        spec_range_start_step(r, SpinResult::Plus) != r,
    ensures
        spec_range_start_step(spec_range_start_step(r, SpinResult::Plus), SpinResult::Minus) == r,
{
}

/// On a range that keeps the minimum span, a Minus on the end stepper takes back a Plus.
pub proof fn lemma_end_minus_undoes_plus(r: PianoRange)
    requires
        keeps_gap(r),
        r.end < 255,
    ensures
        spec_range_end_step(spec_range_end_step(r, SpinResult::Plus), SpinResult::Minus) == r,
{
}

} // verus!
