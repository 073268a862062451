//! Verified core of a piano-practice visualiser: pitch-to-staff mapping, staff notation
//! decisions, MIDI file layout, MIDI port handling and window/display settings logic.

pub mod pitch;
pub mod glyphs;
pub mod text;
pub mod window;
pub mod staff;
pub mod ottava;
pub mod timeline;
pub mod beaming;
pub mod voices;
pub mod midi_io;
pub mod midi_file;
pub mod settings;
pub mod render;
pub mod picker;
pub mod input;
