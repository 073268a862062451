//! Layout of a Standard MIDI File: its timing, time and key signatures and measure grid.

use vstd::prelude::*;
use midly::{MetaMessage as Meta, Timing, TrackEventKind as Kind};

verus! {

/// Header timing of a file: ticks per quarter note, or SMPTE timecode (not supported).
#[derive(Debug, Clone, Copy, PartialEq, Eq)]
pub enum SmfTiming {
    Metrical(u16),
    Timecode,
}

/// What the layout reads from one track event: a time signature (numerator and the
/// denominator's power-of-two exponent as stored), a key signature (sharps, negative for
/// flats), or anything else.
#[derive(Debug, Clone, Copy, PartialEq, Eq)]
pub enum MetaKind {
    TimeSignature(u8, u8),
    KeySignature(i8),
    Other,
}

/// A parsed file as the layout sees it: its timing and each track's events.
pub struct SmfModel {
    pub timing: SmfTiming,
    pub tracks: Vec<Vec<MetaKind>>,
}

/// Why a MIDI file could not be loaded.
#[derive(Debug, Clone, Copy, PartialEq, Eq)]
pub enum MidiFileError {
    FileNotFound,
    CouldNotOpen,
    ParseError,
    TimecodeTiming,
    NoTracks,
}

impl MidiFileError {
    /// The message shown to the user.
    pub fn message(&self) -> (m: &'static str)
        ensures
            *self == MidiFileError::FileNotFound ==> m@ == "File not found"@,
            *self == MidiFileError::CouldNotOpen ==> m@ == "Could Not Open File"@,
            *self == MidiFileError::ParseError ==> m@ == "Midi Parsing Error (midly lib)"@,
            *self == MidiFileError::TimecodeTiming ==> m@ == "Midi With Timecode Timing, Not Supported!"@,
            *self == MidiFileError::NoTracks ==> m@ == "Midi File Has No Tracks"@,
    {
        match self {
            MidiFileError::FileNotFound => "File not found",
            MidiFileError::CouldNotOpen => "Could Not Open File",
            MidiFileError::ParseError => "Midi Parsing Error (midly lib)",
            MidiFileError::TimecodeTiming => "Midi With Timecode Timing, Not Supported!",
            MidiFileError::NoTracks => "Midi File Has No Tracks",
        }
    }
}

/// The layout a file is drawn with.
#[derive(Debug, Clone, Copy, PartialEq, Eq)]
pub struct MeasureLayout {
    /// Ticks per quarter note.
    pub ticks_per_quarter: u16,
    /// (numerator, real denominator) of the time signature.
    pub time_signature: (u8, u8),
    /// Sharps in the key signature (negative = flats).
    pub key_signature: i8,
    /// Length of one measure in ticks.
    pub ticks_per_measure: u64,
}

/// The denominator a time signature stores as a power-of-two exponent: `1 << raw`, with the
/// exponent capped at 7 (so at most 128).
pub open spec fn denominator_of(raw: u8) -> u8 {
    if raw == 0 {
        1
    } else if raw == 1 {
        2
    } else if raw == 2 {
        4
    } else if raw == 3 {
        8
    } else if raw == 4 {
        16
    } else if raw == 5 {
        32
    } else if raw == 6 {
        64
    } else {
        128
    }
}

/// All events of all tracks, track after track.
pub open spec fn all_events(tracks: Seq<Seq<MetaKind>>) -> Seq<MetaKind>
    decreases tracks.len(),
{
    if tracks.len() == 0 {
        Seq::empty()
    } else {
        all_events(tracks.drop_last()) + tracks.last()
    }
}

/// The first time-signature event among the events, as (numerator, real denominator).
pub open spec fn first_time_signature(events: Seq<MetaKind>) -> Option<(u8, u8)>
    decreases events.len(),
{
    if events.len() == 0 {
        None
    } else {
        match first_time_signature(events.drop_last()) {
            Some(ts) => Some(ts),
            None => match events.last() {
                MetaKind::TimeSignature(num, raw) => Some((num, denominator_of(raw))),
                _ => None,
            },
        }
    }
}

/// The first key-signature event among the events, as its number of sharps.
pub open spec fn first_key_signature(events: Seq<MetaKind>) -> Option<i8>
    decreases events.len(),
{
    if events.len() == 0 {
        None
    } else {
        match first_key_signature(events.drop_last()) {
            Some(k) => Some(k),
            None => match events.last() {
                MetaKind::KeySignature(sharps) => Some(sharps),
                _ => None,
            },
        }
    }
}

/// Time signature of a file: the one its first time-signature event sets; 4/4 when there is
/// none.
pub open spec fn time_signature_of(events: Seq<MetaKind>) -> (u8, u8) {
    match first_time_signature(events) {
        Some(ts) => ts,
        None => (4, 4),
    }
}

/// Key signature of a file: the one its first key-signature event sets; C major (no sharps or
/// flats) when there is none.
pub open spec fn key_signature_of(events: Seq<MetaKind>) -> i8 {
    match first_key_signature(events) {
        Some(k) => k,
        None => 0,
    }
}

/// Ticks in one measure: a beat is `4 * ppq / den` ticks (integer division) and a measure
/// `num` beats.
pub open spec fn spec_ticks_per_measure(ppq: u16, ts: (u8, u8)) -> int {
    (ppq * 4) / (ts.1 as int) * ts.0
}

/// The layout of a parsed file: an error for timecode timing (checked first) or a file without
/// tracks, otherwise its time and key signature and measure length.
pub open spec fn spec_layout(timing: SmfTiming, tracks: Seq<Seq<MetaKind>>) -> Result<MeasureLayout, MidiFileError> {
    match timing {
        SmfTiming::Timecode => Err(MidiFileError::TimecodeTiming),
        SmfTiming::Metrical(ppq) => if tracks.len() == 0 {
            Err(MidiFileError::NoTracks)
        } else {
            let ts = time_signature_of(all_events(tracks));
            Ok(
                MeasureLayout {
                    ticks_per_quarter: ppq,
                    time_signature: ts,
                    key_signature: key_signature_of(all_events(tracks)),
                    ticks_per_measure: spec_ticks_per_measure(ppq, ts) as u64,
                },
            )
        },
    }
}

/// The real denominator of a stored exponent (see [`denominator_of`]).
pub fn denominator(raw: u8) -> (d: u8)
    ensures
        d == denominator_of(raw),
        d >= 1,
{
    match raw {
        0 => 1,
        1 => 2,
        2 => 4,
        3 => 8,
        4 => 16,
        5 => 32,
        6 => 64,
        _ => 128,
    }
}

/// Time and key signature of a file: those of the first time-signature and first key-signature
/// events across all tracks, read track after track (4/4 and no sharps when there is none).
pub fn signatures(tracks: &Vec<Vec<MetaKind>>) -> (r: ((u8, u8), i8))
    ensures
        r.0 == time_signature_of(all_events(tracks@.map_values(|t: Vec<MetaKind>| t@))),
        r.1 == key_signature_of(all_events(tracks@.map_values(|t: Vec<MetaKind>| t@))),
{
    let ghost ts = tracks@.map_values(|t: Vec<MetaKind>| t@);
    let mut time_signature: Option<(u8, u8)> = None;
    let mut key_signature: Option<i8> = None;
    let mut ti: usize = 0;
    while ti < tracks.len()
        invariant
            ti <= tracks@.len(),
            ts == tracks@.map_values(|t: Vec<MetaKind>| t@),
            time_signature == first_time_signature(all_events(ts.take(ti as int))),
            key_signature == first_key_signature(all_events(ts.take(ti as int))),
        decreases tracks@.len() - ti,
    {
        let track = &tracks[ti];
        let ghost before = all_events(ts.take(ti as int));
        assert(ts.take(ti + 1).drop_last() =~= ts.take(ti as int));
        assert(ts.take(ti + 1).last() == track@);
        let mut ei: usize = 0;
        while ei < track.len()
            invariant
                ei <= track@.len(),
                time_signature == first_time_signature(before + track@.take(ei as int)),
                key_signature == first_key_signature(before + track@.take(ei as int)),
            decreases track@.len() - ei,
        {
            assert((before + track@.take(ei + 1)).drop_last() =~= before + track@.take(ei as int));
            assert((before + track@.take(ei + 1)).last() == track@[ei as int]);
            match track[ei] {
                MetaKind::TimeSignature(num, raw) => {
                    if time_signature.is_none() {
                        time_signature = Some((num, denominator(raw)));
                    }
                },
                MetaKind::KeySignature(sharps) => {
                    if key_signature.is_none() {
                        key_signature = Some(sharps);
                    }
                },
                MetaKind::Other => {},
            }
            ei = ei + 1;
        }
        assert(track@.take(track@.len() as int) =~= track@);
        ti = ti + 1;
    }
    assert(ts.take(tracks@.len() as int) =~= ts);
    let time_signature = match time_signature {
        Some(t) => t,
        None => (4, 4),
    };
    let key_signature = match key_signature {
        Some(k) => k,
        None => 0,
    };
    (time_signature, key_signature)
}

/// One measure spans `numerator` beats of `1/denominator` each. A quarter note is `ppq` ticks,
/// so a beat is `ppq * 4 / denominator` ticks and a measure `ppq * 4 * numerator / denominator`
/// ticks (the beat length rounded down first).
pub fn ticks_per_measure(ppq: u16, time_signature: (u8, u8)) -> (t: u64)
    requires
        time_signature.1 > 0,
    ensures
        t == spec_ticks_per_measure(ppq, time_signature),
{
    let ticks_per_beat = (ppq as u64 * 4) / time_signature.1 as u64;
    assert(ticks_per_beat <= 262140);
    assert(ticks_per_beat * (time_signature.0 as u64) <= 262140 * 255) by (nonlinear_arith)
        requires
            ticks_per_beat <= 262140,
            time_signature.0 <= 255;
    ticks_per_beat * time_signature.0 as u64
}

/// The layout of a parsed file (see [`spec_layout`]).
pub fn layout(smf: &SmfModel) -> (r: Result<MeasureLayout, MidiFileError>)
    ensures
        r == spec_layout(smf.timing, smf.tracks@.map_values(|t: Vec<MetaKind>| t@)),
{
    let ppq = match smf.timing {
        SmfTiming::Metrical(t) => t,
        SmfTiming::Timecode => {
            return Err(MidiFileError::TimecodeTiming);
        },
    };
    if smf.tracks.len() == 0 {
        return Err(MidiFileError::NoTracks);
    }
    let (time_signature, key_signature) = signatures(&smf.tracks);
    proof {
        lemma_denominator_positive(all_events(smf.tracks@.map_values(|t: Vec<MetaKind>| t@)));
    }
    let ticks_per_measure = ticks_per_measure(ppq, time_signature);
    Ok(MeasureLayout { ticks_per_quarter: ppq, time_signature, key_signature, ticks_per_measure })
}

/// The time signature's denominator is a power of two between 1 and 128.
pub proof fn lemma_denominator_positive(events: Seq<MetaKind>)
    ensures
        1 <= time_signature_of(events).1 <= 128,
{
    lemma_first_denominator(events);
}

proof fn lemma_first_denominator(events: Seq<MetaKind>)
    ensures
        first_time_signature(events) matches Some(ts) ==> 1 <= ts.1 <= 128,
    decreases events.len(),
{
    if events.len() > 0 {
        lemma_first_denominator(events.drop_last());
    }
}

/// Measure boundaries (in ticks) up to and including the first one past the end of the last
/// note: `0, tpm, 2*tpm, ..., K*tpm` with `K*tpm` the first boundary after `last_end`. Converted
/// to time through the (increasing) tempo map, these are the measure start times.
pub fn measure_boundaries(ticks_per_measure: u64, last_end: u64) -> (out: Vec<u64>)
    requires
        ticks_per_measure > 0,
        (last_end / ticks_per_measure + 1) * ticks_per_measure < u64::MAX,
    ensures
        out@.len() == last_end / ticks_per_measure + 2,
        forall|k: int| 0 <= k < out@.len() ==> #[trigger] out@[k] == k * ticks_per_measure,
{
    let mut out: Vec<u64> = Vec::new();
    let mut time: u64 = 0;
    let mut id: u64 = 0;
    let ghost kmax = last_end / ticks_per_measure + 1;
    proof {
        vstd::arithmetic::div_mod::lemma_fundamental_div_mod(last_end as int, ticks_per_measure as int);
        assert(kmax * ticks_per_measure > last_end) by (nonlinear_arith)
            requires
                kmax == last_end / ticks_per_measure + 1,
                last_end == ticks_per_measure * (last_end / ticks_per_measure) + last_end % ticks_per_measure,
                last_end % ticks_per_measure < ticks_per_measure;
    }
    while time <= last_end
        invariant
            ticks_per_measure > 0,
            kmax == last_end / ticks_per_measure + 1,
            kmax * ticks_per_measure < u64::MAX,
            kmax * ticks_per_measure > last_end,
            out@.len() == id,
            id <= kmax + 1,
            forall|k: int| 0 <= k < id ==> #[trigger] out@[k] == k * ticks_per_measure,
            id == 0 ==> time == 0,
            id > 0 ==> time == (id - 1) * ticks_per_measure,
            id > 0 ==> (id - 1) <= kmax,
            id > kmax ==> time > last_end,
        decreases kmax + 1 - id,
    {
        proof {
            if id > 0 {
                assert(id - 1 < kmax);
            }
            assert(id <= kmax);
            assert(id * ticks_per_measure <= kmax * ticks_per_measure) by (nonlinear_arith)
                requires
                    id <= kmax,
                    ticks_per_measure > 0;
        }
        assert(kmax < u64::MAX) by (nonlinear_arith)
            requires
                kmax * ticks_per_measure < u64::MAX,
                ticks_per_measure >= 1,
                kmax >= 0;
        time = id * ticks_per_measure;
        out.push(time);
        id = id + 1;
        proof {
            if id > kmax {
                assert(time == kmax * ticks_per_measure);
            }
        }
    }
    proof {
        assert(id > 0);
        vstd::arithmetic::div_mod::lemma_fundamental_div_mod(last_end as int, ticks_per_measure as int);
        let q = last_end / ticks_per_measure;
        if id - 1 <= q {
            assert((id - 1) * ticks_per_measure <= q * ticks_per_measure) by (nonlinear_arith)
                requires
                    id - 1 <= q,
                    ticks_per_measure > 0;
            assert(q * ticks_per_measure <= last_end) by (nonlinear_arith)
                requires
                    last_end == ticks_per_measure * q + last_end % ticks_per_measure,
                    last_end % ticks_per_measure >= 0;
        }
    }
    out
}

} // verus!

verus! {

/// What `midly::Smf::parse` makes of a file's bytes, seen through the header timing and the
/// kind of each track event: `None` when midly rejects the bytes.
pub uninterp spec fn midly_smf(bytes: Seq<u8>) -> Option<(SmfTiming, Seq<Seq<MetaKind>>)>;

/// `midly::Smf::parse`: parses the bytes of a Standard MIDI File. The contract claims only that
/// the result is a function of the bytes (named [`midly_smf`]) and that the conversion keeps the
/// timing and, event by event, the time and key signatures.
#[verifier::external_body]
fn parse_smf(bytes: &[u8]) -> (r: Option<SmfModel>)
    ensures
        r is Some <==> midly_smf(bytes@) is Some,
        r matches Some(m) ==> (m.timing, m.tracks@.map_values(|t: Vec<MetaKind>| t@)) == midly_smf(bytes@).unwrap(),
{
    let smf = midly::Smf::parse(bytes).ok()?;
    let timing = match smf.header.timing {
        Timing::Metrical(t) => SmfTiming::Metrical(t.as_int()),
        Timing::Timecode(..) => SmfTiming::Timecode,
    };
    let tracks = smf.tracks.iter().map(|t| t.iter().map(|e| match e.kind {
        Kind::Meta(Meta::TimeSignature(n, d, _, _)) => MetaKind::TimeSignature(n, d),
        Kind::Meta(Meta::KeySignature(s, _)) => MetaKind::KeySignature(s),
        _ => MetaKind::Other,
    }).collect()).collect();
    Some(SmfModel { timing, tracks })
}

/// Parse a Standard MIDI File and compute its measure layout: a parse error when midly rejects
/// the bytes, otherwise the layout of the parsed file (see [`spec_layout`]).
pub fn parse_layout(bytes: &[u8]) -> (r: Result<MeasureLayout, MidiFileError>)
    ensures
        r == match midly_smf(bytes@) {
            None => Err(MidiFileError::ParseError),
            Some((timing, tracks)) => spec_layout(timing, tracks),
        },
{
    match parse_smf(bytes) {
        None => Err(MidiFileError::ParseError),
        Some(smf) => layout(&smf),
    }
}

/// The measure grid covers the song: consecutive boundaries are one measure apart, the last
/// boundary lies after the end of the last note and the one before it does not.
pub proof fn lemma_measure_boundaries_cover(ticks_per_measure: int, last_end: int)
    requires
        ticks_per_measure > 0,
        last_end >= 0,
    ensures
        ({
            let count = last_end / ticks_per_measure + 2;
            &&& (count - 1) * ticks_per_measure > last_end
            &&& (count - 2) * ticks_per_measure <= last_end
        }),
{
    vstd::arithmetic::div_mod::lemma_fundamental_div_mod(last_end, ticks_per_measure);
    let q = last_end / ticks_per_measure;
    let r = last_end % ticks_per_measure;
    assert((q + 1) * ticks_per_measure > last_end) by (nonlinear_arith)
        requires
            last_end == ticks_per_measure * q + r,
            r < ticks_per_measure;
    assert(q * ticks_per_measure <= last_end) by (nonlinear_arith)
        requires
            last_end == ticks_per_measure * q + r,
            r >= 0;
}

} // verus!
