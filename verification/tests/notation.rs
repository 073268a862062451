use neothesia::beaming::{
    beam_run_end, beam_stems, chord_stem_flags, filled_heads, group_played, is_grace, outer_step, voice_heads, voice_stream_items, StreamItem,
    VoiceColumn,
};
use neothesia::glyphs::{flag, is_flag, is_flag_down, FLAT, NOTEHEAD_BLACK, NOTEHEAD_HALF, NOTEHEAD_WHOLE, SHARP};
use neothesia::ottava::{column_shifts, ottava_runs, run_visible, OttavaRun};
use neothesia::pitch::{diatonic_step, is_black_key, is_treble, pitch_class_degree, top_line_midi, StaffBounds};
use neothesia::staff::{
    accidental, classify, classify_in_measure, key_signature_letters, key_signature_steps, nearest_step, note_letter,
    ottava_label, time_signature_glyph,
};
use neothesia::timeline::{measure_duration, measure_index, measure_start, DEFAULT_MEASURE_NS, MIN_MEASURE_NS};

const MS: u64 = 1_000_000;

#[test]
fn diatonic_steps_of_notes() {
    assert_eq!(diatonic_step(60), 28);
    assert_eq!(diatonic_step(61), 28);
    assert_eq!(diatonic_step(62), 29);
    assert_eq!(diatonic_step(72), 35);
    assert_eq!(diatonic_step(0), -7);
    assert_eq!(diatonic_step(77), 38);
    assert_eq!(diatonic_step(57), 26);
    assert_eq!(pitch_class_degree(11), 6);
}

#[test]
fn octave_up_is_seven_steps() {
    for n in 0u8..=115 {
        assert_eq!(diatonic_step(n + 12), diatonic_step(n) + 7);
    }
}

#[test]
fn staff_split_and_top_lines() {
    assert!(is_treble(60));
    assert!(!is_treble(59));
    assert_eq!(top_line_midi(true), 77);
    assert_eq!(top_line_midi(false), 57);
    assert!(is_black_key(61));
    assert!(is_black_key(70));
    assert!(!is_black_key(60));
    assert!(!is_black_key(64));
}

#[test]
fn ledger_lines_outside_the_staff() {
    let treble = StaffBounds { top: diatonic_step(77), bottom: diatonic_step(64) };
    assert_eq!(treble.ledger_steps(28), vec![28]);
    assert_eq!(treble.ledger_steps(27), vec![28]);
    assert_eq!(treble.ledger_steps(25), vec![28, 26]);
    assert_eq!(treble.ledger_steps(41), vec![40]);
    assert_eq!(treble.ledger_steps(42), vec![40, 42]);
    assert!(treble.ledger_steps(33).is_empty());
    assert!(treble.ledger_steps(30).is_empty());
}

#[test]
fn flag_glyphs() {
    assert_eq!(flag(1, false), '\u{E240}');
    assert_eq!(flag(1, true), '\u{E241}');
    assert_eq!(flag(2, false), '\u{E242}');
    assert_eq!(flag(2, true), '\u{E243}');
    assert_eq!(flag(3, true), '\u{E245}');
    assert_eq!(flag(0, false), '\u{E244}');
    assert!(is_flag('\u{E240}'));
    assert!(is_flag('\u{E245}'));
    assert!(!is_flag('\u{E246}'));
    assert!(!is_flag('\u{E23F}'));
    assert!(is_flag_down('\u{E241}'));
    assert!(!is_flag_down('\u{E240}'));
    assert!(!is_flag_down('\u{E247}'));
}

#[test]
fn every_flag_is_recognised() {
    for count in 0u8..=5 {
        for down in [false, true] {
            let c = flag(count, down);
            assert!(is_flag(c));
            assert_eq!(is_flag_down(c), down);
        }
    }
}

#[test]
fn key_signature_letters_follow_the_circle_of_fifths() {
    assert_eq!(key_signature_letters(2), vec![3, 0]);
    assert_eq!(key_signature_letters(-3), vec![6, 2, 5]);
    assert!(key_signature_letters(0).is_empty());
    assert_eq!(key_signature_letters(7), vec![3, 0, 4, 1, 5, 2, 6]);
    assert_eq!(note_letter(66), 3);
}

#[test]
fn key_signature_steps_sit_near_the_staff_centre() {
    // treble centre is B4 (step 34); F lands on F4 (31), C on C5 (35).
    assert_eq!(key_signature_steps(2, true), vec![31, 35]);
    assert_eq!(nearest_step(3, 30), 31);
    assert_eq!(nearest_step(6, 30), 27);
    assert_eq!(nearest_step(0, -5), -7);
    assert_eq!(nearest_step(3, 34), 31);
    // any letter, far from the origin
    assert_eq!(nearest_step(10, 1_000_003), 1_000_002);
    assert_eq!(nearest_step(-4, -16_000_000), -16_000_002);
}

#[test]
fn ottava_labels() {
    assert_eq!(ottava_label(true, 1), "8va");
    assert_eq!(ottava_label(true, 2), "15ma");
    assert_eq!(ottava_label(false, 1), "8vb");
    assert_eq!(ottava_label(false, 2), "15mb");
}

#[test]
fn note_values_by_duration() {
    assert_eq!(classify(1920, 480), (NOTEHEAD_WHOLE, false, 0));
    assert_eq!(classify(960, 480), (NOTEHEAD_HALF, true, 0));
    assert_eq!(classify(480, 480), (NOTEHEAD_BLACK, true, 0));
    assert_eq!(classify(240, 480), (NOTEHEAD_BLACK, true, 1));
    assert_eq!(classify(120, 480), (NOTEHEAD_BLACK, true, 2));
    assert_eq!(classify(60, 480), (NOTEHEAD_BLACK, true, 3));
    assert_eq!(classify_in_measure(1920, 1920), (NOTEHEAD_WHOLE, false, 0));
    assert_eq!(classify_in_measure(240, 1920), (NOTEHEAD_BLACK, true, 1));
}

#[test]
fn accidentals_against_the_key() {
    assert_eq!(accidental(61, 0), Some(SHARP));
    assert_eq!(accidental(66, 1), None);
    assert_eq!(accidental(70, -1), Some(FLAT));
    assert_eq!(accidental(60, 3), None);
    assert_eq!(time_signature_glyph(3), '\u{E083}');
}

#[test]
fn ottava_runs_group_high_and_low_columns() {
    let cols = vec![vec![60u8], vec![91], vec![93], vec![60]];
    let runs = ottava_runs(&cols, true);
    assert_eq!(runs.len(), 1);
    assert_eq!((runs[0].start, runs[0].end, runs[0].shift, runs[0].high), (1, 2, 1, true));
    let low = ottava_runs(&vec![vec![48u8]], true);
    assert_eq!(low.len(), 1);
    assert_eq!((low[0].start, low[0].end, low[0].shift, low[0].high), (0, 0, 1, false));
    assert!(ottava_runs(&vec![vec![60u8], vec![]], true).is_empty());
    let bass = ottava_runs(&vec![vec![72u8]], false);
    assert_eq!((bass[0].shift, bass[0].high), (1, true));
    let two = ottava_runs(&vec![vec![127u8]], true);
    assert_eq!(two[0].shift, 2);
}

#[test]
fn column_shifts_and_visibility() {
    let runs = vec![OttavaRun { start: 1, end: 2, shift: 1, high: true }];
    assert_eq!(column_shifts(&runs, 1, 3), vec![-7, -7, 0]);
    assert_eq!(column_shifts(&runs, 0, 2), vec![0, -7]);
    let low = vec![OttavaRun { start: 0, end: 0, shift: 2, high: false }];
    assert_eq!(column_shifts(&low, 0, 2), vec![14, 0]);
    assert!(!run_visible(&runs[0], 3, 2));
    assert!(run_visible(&runs[0], 2, 2));
}

#[test]
fn measures_on_the_timeline() {
    let m = vec![0u64, 2_000_000_000, 2_050_000_000];
    assert_eq!(measure_index(&m, 500), 0);
    assert_eq!(measure_index(&m, 2_000_000_000), 1);
    assert_eq!(measure_index(&m, 9_000_000_000), 1);
    assert_eq!(measure_index(&vec![5u64], 9), 0);
    assert_eq!(measure_duration(&m, 0), 2_000_000_000);
    assert_eq!(measure_duration(&m, 1), MIN_MEASURE_NS);
    assert_eq!(measure_duration(&m, 2), DEFAULT_MEASURE_NS);
    assert_eq!(measure_start(&m, 1), 2_000_000_000);
    assert_eq!(measure_start(&m, 7), 0);
}

#[test]
fn eighths_are_beamed_in_pairs_within_a_beat() {
    let times = vec![0, 250 * MS, 500 * MS, 750 * MS, 1000 * MS];
    let measure = 2000 * MS;
    assert_eq!(beam_run_end(&times, 0, measure, 0), Some((1, 1)));
    assert_eq!(beam_run_end(&times, 2, measure, 0), Some((3, 1)));
    assert_eq!(beam_run_end(&times, 4, measure, 0), None);
    // a quarter-note gap is not beamable
    let quarters = vec![0, 500 * MS, 1000 * MS];
    assert_eq!(beam_run_end(&quarters, 0, measure, 0), None);
    // four sixteenths share one beat
    let sixteenths = vec![0, 125 * MS, 250 * MS, 375 * MS, 500 * MS];
    assert_eq!(beam_run_end(&sixteenths, 0, measure, 0), Some((3, 2)));
}

#[test]
fn voice_stream_of_eighths_and_a_grace_note() {
    let col = |t: u64, d: u64| VoiceColumn { t, notes: vec![(60, d)] };
    let cols = vec![col(0, 250 * MS), col(250 * MS, 250 * MS), col(500 * MS, 250 * MS), col(750 * MS, 250 * MS)];
    let measures = vec![0, 2000 * MS, 4000 * MS];
    let items = voice_stream_items(&cols, &measures);
    assert_eq!(items.len(), 2);
    assert!(matches!(items[0], StreamItem::Beamed(0, 1, 1)));
    assert!(matches!(items[1], StreamItem::Beamed(2, 3, 1)));

    // a 32nd crushed just before a quarter
    let grace = vec![col(0, 50 * MS), col(50 * MS, 500 * MS)];
    assert!(is_grace(&grace, 0, 2000 * MS));
    assert!(!is_grace(&grace, 1, 2000 * MS));
    let items = voice_stream_items(&grace, &measures);
    assert!(matches!(items[0], StreamItem::Grace(0)));
    assert!(matches!(items[1], StreamItem::Single(1)));
}

#[test]
fn noteheads_and_stems() {
    let heads = voice_heads(&vec![(60, 500 * MS), (64, 250 * MS)], 2000 * MS, 0);
    assert_eq!((heads[0].step, heads[0].head, heads[0].has_stem, heads[0].flags, heads[0].midi), (28, NOTEHEAD_BLACK, true, 0, 60));
    assert_eq!(heads[1].flags, 1);
    assert_eq!(chord_stem_flags(&heads), Some(1));
    let shifted = voice_heads(&vec![(91, 500 * MS)], 2000 * MS, -7);
    assert_eq!(shifted[0].step, 39);
    let whole = voice_heads(&vec![(60, 2000 * MS)], 2000 * MS, 0);
    assert_eq!(whole[0].head, NOTEHEAD_WHOLE);
    assert_eq!(chord_stem_flags(&whole), None);
}

#[test]
fn beamed_groups_have_filled_heads_and_outer_stems() {
    // a long stored duration still draws a filled head once beamed
    let heads = voice_heads(&vec![(60, 2000 * MS), (67, 250 * MS)], 2000 * MS, 0);
    assert_eq!(heads[0].head, NOTEHEAD_WHOLE);
    let filled = filled_heads(heads);
    assert_eq!(filled[0].head, NOTEHEAD_BLACK);
    assert_eq!(filled[1].head, NOTEHEAD_BLACK);
    assert_eq!((filled[0].step, filled[0].has_stem, filled[0].flags, filled[0].midi), (28, false, 0, 60));

    assert_eq!(outer_step(&filled, false), 32);
    assert_eq!(outer_step(&filled, true), 28);

    let c1 = voice_heads(&vec![(60, 250 * MS), (64, 250 * MS)], 2000 * MS, 0);
    let c2 = voice_heads(&vec![(72, 250 * MS)], 2000 * MS, 0);
    let (outer, group) = beam_stems(&vec![c1.clone(), c2.clone()], true);
    assert_eq!(outer, vec![30, 35]);
    assert_eq!(group, 35);
    let (outer, group) = beam_stems(&vec![c1, c2], false);
    assert_eq!(outer, vec![28, 35]);
    assert_eq!(group, 28);
}

#[test]
fn beaming_works_far_into_a_long_recording() {
    // twelve hours in, past where smaller intermediates would overflow
    let base: u64 = 12 * 3600 * 1000 * MS;
    let times = vec![base, base + 250 * MS, base + 500 * MS];
    assert_eq!(beam_run_end(&times, 0, 2000 * MS, base), Some((1, 1)));
    let huge: u64 = u64::MAX - 10;
    assert_eq!(beam_run_end(&vec![huge, huge + 5], 0, u64::MAX, 0), Some((1, 3)));
    let cols = vec![
        VoiceColumn { t: base, notes: vec![(60, 250 * MS)] },
        VoiceColumn { t: base + 250 * MS, notes: vec![(62, 250 * MS)] },
    ];
    let items = voice_stream_items(&cols, &vec![base, base + 2000 * MS]);
    assert!(matches!(items[0], StreamItem::Beamed(0, 1, 1)));
}

#[test]
fn beamed_group_greys_with_its_last_onset() {
    let cols = vec![VoiceColumn { t: 100, notes: vec![(60, 10)] }, VoiceColumn { t: 200, notes: vec![(62, 10)] }];
    assert!(!group_played(&cols, 1, 150));
    assert!(group_played(&cols, 1, 200));
    assert!(group_played(&cols, 0, 150));
}

#[test]
fn large_ottava_shifts_stay_exact() {
    let heads = voice_heads(&vec![(255, 500 * MS)], 2000 * MS, i32::MAX - 141);
    assert_eq!(heads[0].step, i32::MAX);
    let low = voice_heads(&vec![(0, 500 * MS)], 2000 * MS, i32::MIN + 7);
    assert_eq!(low[0].step, i32::MIN);
}
