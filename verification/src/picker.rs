//! File pickers of the menu: the song picker and the SoundFont picker.
//!
//! Opening a picker is a two-step exchange with the native file dialog. The first step marks
//! the menu as loading, leaves exclusive fullscreen (the dialog would be hidden behind it) and
//! names the dialog to show; the second takes what the dialog gave back, stores it, and undoes
//! the first step.

use vstd::prelude::*;
use crate::midi_file::MeasureLayout;

verus! {

/// A native file dialog to show: the name of its filter and the extensions the filter accepts.
pub struct FileDialogRequest {
    pub filter_name: String,
    pub extensions: Vec<String>,
}

/// What the pickers read and change: the menu's loading flag, whether fullscreen was left for a
/// dialog, the song the menu holds (as its measure layout) and the two remembered paths.
pub struct PickerState {
    pub is_loading: bool,
    pub fullscreen_suspended: bool,
    pub song: Option<MeasureLayout>,
    pub last_opened_song: Option<String>,
    pub soundfont_path: Option<String>,
}

/// Views of an optional string.
pub open spec fn opt_view(s: Option<String>) -> Option<Seq<char>> {
    match s {
        Some(v) => Some(v@),
        None => None,
    }
}

/// The contents of a list of strings.
pub open spec fn strings_view(v: Seq<String>) -> Seq<Seq<char>> {
    v.map_values(|s: String| s@)
}

fn dialog_request(filter_name: &str, extensions: &[&str]) -> (d: FileDialogRequest)
    ensures
        d.filter_name@ == filter_name@,
        d.extensions@.len() == extensions@.len(),
        forall|k: int| 0 <= k < extensions@.len() ==> (#[trigger] d.extensions@[k])@ == extensions@[k]@,
{
    let mut out: Vec<String> = Vec::new();
    let mut i: usize = 0;
    while i < extensions.len()
        invariant
            i <= extensions@.len(),
            out@.len() == i,
            forall|k: int| 0 <= k < i ==> (#[trigger] out@[k])@ == extensions@[k]@,
        decreases extensions@.len() - i,
    {
        out.push(extensions[i].to_owned());
        i = i + 1;
    }
    FileDialogRequest { filter_name: filter_name.to_owned(), extensions: out }
}

/// The song picker's first step: loading, fullscreen left, and a dialog for MIDI files.
pub fn open_midi_file_picker(state: &mut PickerState) -> (d: FileDialogRequest)
    ensures
        final(state).is_loading,
        final(state).fullscreen_suspended,
        final(state).song == old(state).song,
        final(state).last_opened_song == old(state).last_opened_song,
        final(state).soundfont_path == old(state).soundfont_path,
        d.filter_name@ == "midi"@,
        strings_view(d.extensions@) == seq!["mid"@, "midi"@],
{
    state.is_loading = true;
    state.fullscreen_suspended = true;
    let exts: [&str; 2] = ["mid", "midi"];
    let d = dialog_request("midi", &exts);
    proof {
        assert(strings_view(d.extensions@) =~= seq!["mid"@, "midi"@]);
    }
    d
}

/// The SoundFont picker's first step: loading, fullscreen left, and a dialog for SoundFont 2
/// files.
pub fn open_soundfont_picker(state: &mut PickerState) -> (d: FileDialogRequest)
    ensures
        final(state).is_loading,
        final(state).fullscreen_suspended,
        final(state).song == old(state).song,
        final(state).last_opened_song == old(state).last_opened_song,
        final(state).soundfont_path == old(state).soundfont_path,
        d.filter_name@ == "SoundFont2"@,
        strings_view(d.extensions@) == seq!["sf2"@],
{
    state.is_loading = true;
    state.fullscreen_suspended = true;
    let exts: [&str; 1] = ["sf2"];
    let d = dialog_request("SoundFont2", &exts);
    proof {
        assert(strings_view(d.extensions@) =~= seq!["sf2"@]);
    }
    d
}

/// The song picker's second step, given the song that was picked and loaded with its path
/// (none when the dialog was cancelled or the file did not load): the menu holds the song and
/// remembers its path as the last opened song; loading ends and fullscreen comes back.
pub fn finish_midi_file_picker(state: &mut PickerState, loaded: Option<(MeasureLayout, String)>)
    ensures
        !final(state).is_loading,
        !final(state).fullscreen_suspended,
        final(state).song == (match loaded {
            Some((song, _)) => Some(song),
            None => old(state).song,
        }),
        opt_view(final(state).last_opened_song) == (match loaded {
            Some((_, path)) => Some(path@),
            None => opt_view(old(state).last_opened_song),
        }),
        opt_view(final(state).soundfont_path) == opt_view(old(state).soundfont_path),
{
    if let Some((song, path)) = loaded {
        state.song = Some(song);
        state.last_opened_song = Some(path);
    }
    state.is_loading = false;
    state.fullscreen_suspended = false;
}

/// The SoundFont picker's second step, given the picked path (none when the dialog was
/// cancelled): the path is remembered as the SoundFont, loading ends and fullscreen comes back.
pub fn finish_soundfont_picker(state: &mut PickerState, picked: Option<String>)
    ensures
        !final(state).is_loading,
        !final(state).fullscreen_suspended,
        opt_view(final(state).soundfont_path) == (if picked is Some {
            opt_view(picked)
        } else {
            opt_view(old(state).soundfont_path)
        }),
        opt_view(final(state).last_opened_song) == opt_view(old(state).last_opened_song),
        final(state).song == old(state).song,
{
    if let Some(path) = picked {
        state.soundfont_path = Some(path);
    }
    state.is_loading = false;
    state.fullscreen_suspended = false;
}

} // verus!
