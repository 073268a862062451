use neothesia::input::{window_event, InputEvent, InputState, MouseButtonKind};
use neothesia::midi_io::{find_port, input_ports, is_real_device, output_ports, InitError, MidiInputPort, MidiOutputPort, SendError};
use neothesia::picker::{finish_midi_file_picker, finish_soundfont_picker, open_midi_file_picker, open_soundfont_picker, PickerState};
use neothesia::render::clamp_scissor_rect;
use neothesia::midi_file::MeasureLayout;
use neothesia::settings::{default_piano_range, update_range_end, update_range_start, PianoRange, SpinResult};
use neothesia::voices::{extend_columns, note_is_treble, staff_columns, treble_track, StaffNote};
use neothesia::window::{
    dedupe_resolutions, monitor_entry, pick_video_mode, select_monitor, window_plan, MonitorChoice, ResolutionEntry, WindowPlan,
};

fn names(v: &[&str]) -> Vec<String> {
    v.iter().map(|s| s.to_string()).collect()
}

#[test]
fn system_and_loopback_ports_are_not_devices() {
    assert!(!is_real_device("System:Timer 0:0"));
    assert!(!is_real_device("System:Announce 0:1"));
    assert!(!is_real_device("Midi Through:Midi Through Port-0 14:0"));
    assert!(!is_real_device("  System  :x"));
    assert!(!is_real_device("System"));
    assert!(is_real_device("Digital Piano:Digital Piano MIDI 1 20:0"));
    assert!(is_real_device("Systemic:port"));
    assert!(is_real_device(""));
}

#[test]
fn port_lists_keep_real_devices_in_order() {
    let n = names(&["System:Timer 0:0", "Keys:Keys MIDI 1 20:0", "Midi Through:Port-0 14:0", "Synth:out 24:0"]);
    let outs = output_ports(&n);
    assert_eq!(outs, vec![MidiOutputPort::new("Keys:Keys MIDI 1 20:0".to_string()), MidiOutputPort::new("Synth:out 24:0".to_string())]);
    let ins = input_ports(&n);
    assert_eq!(ins.len(), 2);
    assert_eq!(ins[1].name(), "Synth:out 24:0");
    assert_eq!(MidiInputPort::new("a".to_string()).name(), "a");
}

#[test]
fn port_lookup_by_name() {
    let listed = vec![None, Some("A".to_string()), Some("B".to_string()), Some("A".to_string())];
    assert_eq!(find_port(&listed, &"A".to_string()), Some(1));
    assert_eq!(find_port(&listed, &"B".to_string()), Some(2));
    assert_eq!(find_port(&listed, &"C".to_string()), None);
}

#[test]
fn midi_error_messages() {
    assert_eq!(InitError.message(), "MIDI support could not be initialized");
    assert_eq!(SendError::InvalidData("bad status byte").message(), "bad status byte");
    assert_eq!(SendError::Other("gone").message(), "gone");
}

#[test]
fn resolution_labels() {
    let e = ResolutionEntry { size: (1920, 1080), refresh_rate_millihertz: 59_940 };
    assert_eq!(e.label(), "1920 × 1080（59 Hz）");
    let unknown = ResolutionEntry { size: (800, 600), refresh_rate_millihertz: 0 };
    assert_eq!(unknown.label(), "800 × 600");
}

#[test]
fn monitor_entries() {
    let e = monitor_entry(0, Some("DP-1".to_string()), 2560, 1440);
    assert_eq!(e.name, "DP-1");
    assert_eq!(e.label, "1. DP-1（2560×1440）");
    let unnamed = monitor_entry(2, None, 1920, 1080);
    assert_eq!(unnamed.name, "monitor-2");
    assert_eq!(unnamed.label, "3. monitor-2（1920×1080）");
}

#[test]
fn resolutions_are_deduped_and_sorted() {
    let modes = vec![
        (1280, 720, 60_000),
        (1920, 1080, 60_000),
        (1280, 720, 75_000),
        (1920, 1080, 144_000),
        (1440, 900, 60_000),
        (1600, 810, 60_000),
    ];
    let out = dedupe_resolutions(&modes);
    let keys: Vec<((u32, u32), u32)> = out.iter().map(|e| (e.size, e.refresh_rate_millihertz)).collect();
    // 1440x900 and 1600x810 have the same area and refresh rate: offered order is kept.
    assert_eq!(
        keys,
        vec![((1920, 1080), 144_000), ((1440, 900), 60_000), ((1600, 810), 60_000), ((1280, 720), 75_000)]
    );
    assert!(dedupe_resolutions(&vec![]).is_empty());
}

#[test]
fn video_mode_choice() {
    let modes = vec![(1920, 1080, 60_000), (2560, 1440, 60_000), (1920, 1080, 144_000), (2560, 1440, 60_000)];
    assert_eq!(pick_video_mode(&modes, Some((1920, 1080))), Some(2));
    // largest area, and of equal ones the last listed
    assert_eq!(pick_video_mode(&modes, None), Some(3));
    assert_eq!(pick_video_mode(&modes, Some((800, 600))), None);
    assert_eq!(pick_video_mode(&vec![], None), None);
}

#[test]
fn window_plans() {
    let modes = vec![(1920, 1080, 60_000), (1920, 1080, 120_000)];
    assert!(matches!(window_plan(false, Some((1280, 720)), Some(&modes)), WindowPlan::Windowed(Some((1280, 720)))));
    assert!(matches!(window_plan(true, None, None), WindowPlan::BorderlessAnywhere));
    assert!(matches!(window_plan(true, Some((1920, 1080)), Some(&modes)), WindowPlan::Exclusive(1)));
    assert!(matches!(window_plan(true, Some((640, 480)), Some(&modes)), WindowPlan::BorderlessOnMonitor));
}

#[test]
fn monitor_selection() {
    let listed = vec![Some("HDMI-1".to_string()), Some("DP-1".to_string())];
    let want = "DP-1".to_string();
    assert!(matches!(select_monitor(&listed, Some(&want), true, true), MonitorChoice::Listed(1)));
    let missing = "VGA".to_string();
    assert!(matches!(select_monitor(&listed, Some(&missing), true, true), MonitorChoice::Current));
    assert!(matches!(select_monitor(&listed, None, false, true), MonitorChoice::Primary));
    assert!(matches!(select_monitor(&listed, None, false, false), MonitorChoice::Listed(0)));
    assert!(matches!(select_monitor(&vec![], None, false, false), MonitorChoice::Unavailable));
}

#[test]
fn piano_range_steppers() {
    let r = PianoRange { start: 21, end: 108 };
    assert_eq!(update_range_start(r, SpinResult::Plus), PianoRange { start: 22, end: 108 });
    assert_eq!(update_range_start(r, SpinResult::Minus), PianoRange { start: 20, end: 108 });
    assert_eq!(update_range_start(r, SpinResult::Idle), r);
    assert_eq!(update_range_start(PianoRange { start: 0, end: 50 }, SpinResult::Minus), PianoRange { start: 0, end: 50 });
    // the span must stay above 24 notes
    let tight = PianoRange { start: 21, end: 46 };
    assert_eq!(update_range_start(tight, SpinResult::Plus), tight);
    assert_eq!(update_range_end(tight, SpinResult::Minus), tight);
    assert_eq!(update_range_end(r, SpinResult::Plus), PianoRange { start: 21, end: 109 });
    assert_eq!(update_range_end(r, SpinResult::Minus), PianoRange { start: 21, end: 107 });
    // the start never passes 127
    assert_eq!(update_range_start(PianoRange { start: 127, end: 200 }, SpinResult::Plus), PianoRange { start: 127, end: 200 });
}

#[test]
fn default_range_is_the_88_keys() {
    assert_eq!(default_piano_range(), PianoRange { start: 21, end: 108 });
}

#[test]
fn steppers_undo_each_other() {
    let r = PianoRange { start: 30, end: 90 };
    let up = update_range_start(r, SpinResult::Plus);
    assert_eq!(update_range_start(up, SpinResult::Minus), r);
    let wider = update_range_end(r, SpinResult::Plus);
    assert_eq!(update_range_end(wider, SpinResult::Minus), r);
}

#[test]
fn scissor_rects_are_clamped_to_the_target() {
    assert_eq!(clamp_scissor_rect((800, 600), 700, 500, 200, 200), (100, 100));
    assert_eq!(clamp_scissor_rect((800, 600), 900, 0, 50, 50), (0, 50));
    assert_eq!(clamp_scissor_rect((800, 600), 10, 20, 30, 40), (30, 40));
}

#[test]
fn file_pickers() {
    let mut s = PickerState { is_loading: false, fullscreen_suspended: false, song: None, last_opened_song: None, soundfont_path: None };
    let d = open_midi_file_picker(&mut s);
    assert!(s.is_loading && s.fullscreen_suspended);
    assert_eq!(d.filter_name, "midi");
    assert_eq!(d.extensions, vec!["mid".to_string(), "midi".to_string()]);
    let song = MeasureLayout { ticks_per_quarter: 480, time_signature: (3, 4), key_signature: 1, ticks_per_measure: 1440 };
    finish_midi_file_picker(&mut s, Some((song, "/songs/a.mid".to_string())));
    assert!(!s.is_loading && !s.fullscreen_suspended);
    assert_eq!(s.last_opened_song.as_deref(), Some("/songs/a.mid"));
    assert_eq!(s.song, Some(song));

    let d = open_soundfont_picker(&mut s);
    assert_eq!(d.filter_name, "SoundFont2");
    assert_eq!(d.extensions, vec!["sf2".to_string()]);
    finish_soundfont_picker(&mut s, None);
    assert!(!s.is_loading && !s.fullscreen_suspended);
    assert_eq!(s.soundfont_path, None);
    assert_eq!(s.last_opened_song.as_deref(), Some("/songs/a.mid"));
    assert_eq!(s.song, Some(song));
    open_midi_file_picker(&mut s);
    finish_midi_file_picker(&mut s, None);
    assert_eq!(s.last_opened_song.as_deref(), Some("/songs/a.mid"));
    assert_eq!(s.song, Some(song));
}

fn note(start: u64, note: u8, channel: u8, track_id: usize) -> StaffNote {
    StaffNote { start, duration: 100, note, channel, track_id }
}

#[test]
fn voices_and_staff_columns() {
    let notes = vec![note(0, 72, 0, 0), note(0, 48, 0, 1), note(10, 74, 0, 0), note(20, 50, 0, 1)];
    assert_eq!(treble_track(&notes), Some(0));
    assert_eq!(treble_track(&vec![note(0, 60, 0, 3)]), None);
    assert!(note_is_treble(Some(0), 0, 40));
    assert!(!note_is_treble(Some(0), 1, 80));
    assert!(note_is_treble(None, 1, 60));
    assert!(!note_is_treble(None, 1, 59));

    let notes = vec![note(0, 60, 0, 0), note(0, 64, 0, 0), note(500, 67, 0, 0), note(500, 70, 9, 0), note(900, 50, 0, 0)];
    let cols = staff_columns(&notes, 0, 1000, true, None);
    assert_eq!(cols.len(), 2);
    assert_eq!(cols[0].t, 0);
    assert_eq!(cols[0].notes, vec![(60, 100), (64, 100)]);
    assert_eq!(cols[1].t, 500);
    assert_eq!(cols[1].notes, vec![(67, 100)]);
    let bass = staff_columns(&notes, 0, 1000, false, None);
    assert_eq!(bass.len(), 1);
    assert_eq!(bass[0].notes, vec![(50, 100)]);
    assert!(staff_columns(&notes, 600, 800, true, None).is_empty());
}

#[test]
fn window_input_state() {
    let mut s = InputState { physical_width: 800, physical_height: 600, focused: false, left_mouse_btn: false, right_mouse_btn: false };
    // minimising reports a zero size, which is ignored
    assert!(!window_event(&mut s, &InputEvent::Resized(0, 0)));
    assert_eq!((s.physical_width, s.physical_height), (800, 600));
    assert!(!window_event(&mut s, &InputEvent::Resized(1024, 0)));
    assert_eq!((s.physical_width, s.physical_height), (800, 600));
    assert!(window_event(&mut s, &InputEvent::Resized(1024, 768)));
    assert_eq!((s.physical_width, s.physical_height), (1024, 768));
    window_event(&mut s, &InputEvent::Focused(true));
    assert!(s.focused);
    window_event(&mut s, &InputEvent::MouseInput { pressed: true, button: MouseButtonKind::Left });
    assert!(s.left_mouse_btn && !s.right_mouse_btn);
    window_event(&mut s, &InputEvent::MouseInput { pressed: true, button: MouseButtonKind::Middle });
    assert!(s.left_mouse_btn && !s.right_mouse_btn);
    window_event(&mut s, &InputEvent::MouseInput { pressed: false, button: MouseButtonKind::Left });
    assert!(!s.left_mouse_btn);
    let before = s;
    window_event(&mut s, &InputEvent::Other);
    assert_eq!(s, before);
}

#[test]
fn ottava_scan_is_padded_on_both_sides() {
    let s = 1_000_000_000u64;
    let notes = vec![note(0, 60, 0, 0), note(s, 62, 0, 0), note(2 * s, 64, 0, 0), note(2 * s, 36, 0, 0), note(20 * s, 65, 0, 0)];
    let visible = staff_columns(&notes, s, s, true, None);
    let (ext, off) = extend_columns(&notes, visible, &vec![0, 2 * s], true, None);
    assert_eq!(off, 1);
    let times: Vec<u64> = ext.iter().map(|c| c.t).collect();
    // four measures of two seconds on each side: the note twenty seconds in stays out
    assert_eq!(times, vec![0, s, 2 * s]);
    assert_eq!(ext[2].notes, vec![(64, 100)]);
    let (none, off) = extend_columns(&notes, vec![], &vec![0, 2 * s], true, None);
    assert!(none.is_empty() && off == 0);
    // at the very end of time there is nothing to the right
    let last = vec![note(u64::MAX, 70, 0, 0)];
    let cols = staff_columns(&last, u64::MAX, u64::MAX, true, None);
    let (ext, off) = extend_columns(&last, cols, &vec![0, 2 * s], true, None);
    assert_eq!((ext.len(), off), (1, 0));
}
