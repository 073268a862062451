# neothesia (verified core)

The decision logic of a piano-practice visualiser, written in Verus with contracts proved:

- `pitch`, `staff`, `glyphs`: notes to staff positions, ledger lines, key signatures,
  accidentals, note values and SMuFL glyphs.
- `ottava`, `beaming`, `voices`, `timeline`: which notes go on which staff, how chords are
  grouped into columns, beamed, marked as grace notes or moved under an octave bracket, and
  where a time falls among the measures.
- `midi_file`: the measure layout of a Standard MIDI File (parsed with `midly`).
- `midi_io`: which MIDI ports are real devices and how a stored port is found again.
- `window`, `input`, `render`, `settings`, `picker`: display settings (monitors, resolutions,
  fullscreen plan), window input state, scissor clamping, the piano-range steppers and the
  file-picker exchange.

`app/` holds the unverified glue to midir, winit, wgpu and rfd. `tests/` runs the library on
concrete values.
