use midly::{Format, Header, MetaMessage, MidiMessage, Smf, Timing, Track, TrackEvent, TrackEventKind};
use neothesia::midi_file::{
    denominator, layout, measure_boundaries, parse_layout, signatures, ticks_per_measure, MeasureLayout,
    MetaKind, MidiFileError, SmfModel, SmfTiming,
};

/// Build a one-track file at the given PPQ and time signature, with `measures` measures each
/// holding `beats_per_measure` quarter-note beats of a single repeating note. Returns its
/// layout, the expected ticks per measure and the end of the last note in ticks.
fn build(ppq: u16, num: u8, den: u8, measures: usize, beats_per_measure: u32) -> (MeasureLayout, u64, u64) {
    let mut track: Track = Track::new();
    let den_raw = (den as f64).log2().round() as u8;
    track.push(TrackEvent {
        delta: 0.into(),
        kind: TrackEventKind::Meta(MetaMessage::TimeSignature(num, den_raw, 24, 8)),
    });
    let quarter = ppq as u32;
    for _ in 0..measures {
        for _ in 0..beats_per_measure {
            track.push(TrackEvent {
                delta: 0.into(),
                kind: TrackEventKind::Midi {
                    channel: 0.into(),
                    message: MidiMessage::NoteOn { key: 60.into(), vel: 80.into() },
                },
            });
            track.push(TrackEvent {
                delta: quarter.into(),
                kind: TrackEventKind::Midi {
                    channel: 0.into(),
                    message: MidiMessage::NoteOff { key: 60.into(), vel: 0.into() },
                },
            });
        }
    }
    track.push(TrackEvent { delta: 0.into(), kind: TrackEventKind::Meta(MetaMessage::EndOfTrack) });

    let smf = Smf {
        header: Header::new(Format::SingleTrack, Timing::Metrical(ppq.into())),
        tracks: vec![track],
    };
    let mut bytes: Vec<u8> = Vec::new();
    smf.write_std(&mut bytes).unwrap();
    let layout = parse_layout(&bytes).unwrap();
    let ticks_per_measure = (ppq as u64 * 4 / den as u64) * num as u64;
    let last_end = measures as u64 * beats_per_measure as u64 * ppq as u64;
    (layout, ticks_per_measure, last_end)
}

/// Measure boundaries are evenly spaced by exactly one measure's worth of ticks, whatever the
/// time signature.
fn assert_measure_spacing(layout: &MeasureLayout, ticks_per_measure: u64, last_end: u64) {
    assert_eq!(layout.ticks_per_measure, ticks_per_measure);
    let boundaries = measure_boundaries(layout.ticks_per_measure, last_end);
    assert!(boundaries.len() >= 2, "need >=2 measures");
    for w in boundaries.windows(2) {
        assert_eq!(w[1] - w[0], ticks_per_measure, "measure gap wrong (ts spacing wrong)");
    }
}

#[test]
fn measure_width_4_4() {
    let (midi, tpm, last_end) = build(480, 4, 4, 4, 4);
    assert_eq!(midi.time_signature, (4, 4));
    assert_eq!(tpm, 1920);
    assert_measure_spacing(&midi, tpm, last_end);
}

#[test]
fn measure_width_3_4() {
    let (midi, tpm, last_end) = build(480, 3, 4, 4, 3);
    assert_eq!(midi.time_signature, (3, 4));
    assert_eq!(tpm, 1440);
    assert_measure_spacing(&midi, tpm, last_end);
}

#[test]
fn measure_width_6_8() {
    let (midi, tpm, last_end) = build(480, 6, 8, 4, 3);
    assert_eq!(midi.time_signature, (6, 8));
    assert_eq!(tpm, 1440);
    assert_measure_spacing(&midi, tpm, last_end);
}

#[test]
fn measure_width_2_2() {
    let (midi, tpm, last_end) = build(480, 2, 2, 4, 2);
    assert_eq!(midi.time_signature, (2, 2));
    assert_eq!(tpm, 1920);
    assert_measure_spacing(&midi, tpm, last_end);
}

#[test]
fn layout_of_parsed_file_keeps_ppq_and_key() {
    let mut track: Track = Track::new();
    track.push(TrackEvent { delta: 0.into(), kind: TrackEventKind::Meta(MetaMessage::KeySignature(-3, false)) });
    track.push(TrackEvent { delta: 0.into(), kind: TrackEventKind::Meta(MetaMessage::EndOfTrack) });
    let smf = Smf { header: Header::new(Format::SingleTrack, Timing::Metrical(96.into())), tracks: vec![track] };
    let mut bytes: Vec<u8> = Vec::new();
    smf.write_std(&mut bytes).unwrap();
    let l = parse_layout(&bytes).unwrap();
    assert_eq!(l.ticks_per_quarter, 96);
    assert_eq!(l.key_signature, -3);
    assert_eq!(l.time_signature, (4, 4));
    assert_eq!(l.ticks_per_measure, 384);
}

#[test]
fn garbage_bytes_are_a_parse_error() {
    let r = parse_layout(b"this is not a midi file");
    assert_eq!(r, Err(MidiFileError::ParseError));
    assert_eq!(MidiFileError::ParseError.message(), "Midi Parsing Error (midly lib)");
}

#[test]
fn timecode_file_is_refused() {
    let mut track: Track = Track::new();
    track.push(TrackEvent { delta: 0.into(), kind: TrackEventKind::Meta(MetaMessage::EndOfTrack) });
    let smf = Smf {
        header: Header::new(Format::SingleTrack, Timing::Timecode(midly::Fps::Fps25, 40)),
        tracks: vec![track],
    };
    let mut bytes: Vec<u8> = Vec::new();
    smf.write_std(&mut bytes).unwrap();
    assert_eq!(parse_layout(&bytes), Err(MidiFileError::TimecodeTiming));
    assert_eq!(MidiFileError::TimecodeTiming.message(), "Midi With Timecode Timing, Not Supported!");
}

#[test]
fn file_without_tracks_is_refused() {
    let smf = SmfModel { timing: SmfTiming::Metrical(480), tracks: vec![] };
    assert_eq!(layout(&smf), Err(MidiFileError::NoTracks));
    assert_eq!(MidiFileError::NoTracks.message(), "Midi File Has No Tracks");
    assert_eq!(MidiFileError::FileNotFound.message(), "File not found");
    assert_eq!(MidiFileError::CouldNotOpen.message(), "Could Not Open File");
}

#[test]
fn first_signature_events_set_the_signatures() {
    let tracks = vec![
        vec![MetaKind::Other, MetaKind::KeySignature(2)],
        vec![MetaKind::TimeSignature(3, 2), MetaKind::Other, MetaKind::TimeSignature(6, 3)],
        vec![MetaKind::KeySignature(-1)],
    ];
    assert_eq!(signatures(&tracks), ((3, 4), 2));
    assert_eq!(signatures(&vec![]), ((4, 4), 0));
    assert_eq!(signatures(&vec![vec![MetaKind::Other]]), ((4, 4), 0));
}

#[test]
fn denominator_is_a_capped_power_of_two() {
    assert_eq!(denominator(0), 1);
    assert_eq!(denominator(3), 8);
    assert_eq!(denominator(7), 128);
    assert_eq!(denominator(200), 128);
}

#[test]
fn ticks_per_measure_rounds_the_beat_down_first() {
    assert_eq!(ticks_per_measure(480, (4, 4)), 1920);
    assert_eq!(ticks_per_measure(480, (7, 8)), 1680);
    // 100 * 4 / 16 = 25 per beat, then 5 beats.
    assert_eq!(ticks_per_measure(100, (5, 16)), 125);
    // 10 * 4 / 128 rounds down to 0 ticks per beat.
    assert_eq!(ticks_per_measure(10, (3, 128)), 0);
}

#[test]
fn measure_grid_covers_the_last_note() {
    // last note ends exactly on a boundary: one more boundary follows it.
    assert_eq!(measure_boundaries(100, 300), vec![0, 100, 200, 300, 400]);
    assert_eq!(measure_boundaries(100, 0), vec![0, 100]);
    assert_eq!(measure_boundaries(100, 250), vec![0, 100, 200, 300]);
}
