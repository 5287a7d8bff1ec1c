# midi_flipper

A MIDI "flipper": it opens a standard MIDI file, mirrors the notes of each
track around the middle of the keyboard (with optional transposition, pitch
bend inversion and an exemption for the drum channel), plays the original or
the flipped song, and saves the flipped file.

The library under `src/` is written in Verus and verified:

- `midi`, `midi_file`: the model of MIDI data, and reading a file's bytes
  (parsed by `midi_msg`) into it.
- `soundfont`: opening a soundfont's bytes (parsed by `rustysynth`) after
  checking that its chunks and tables stay inside the bytes.
- `merge`, `timing`: the playing order of a file's tracks, the time of each
  event, and cutting the order back into one region per track.
- `flip`, `paint`, `track`: flipping events, the drawable notes of a track,
  and a track whose flipped copy always follows its settings.
- `grid`: the bar grid of a song read tick by tick, with time signatures and
  tempo changes.
- `session`: an opened file with its tracks, its grid, the cursor, and the
  file assembled back from the tracks.
- `sequencer`, `sink`, `transport`: playing regions against a clock into a
  synthesizer, and the playback decisions.
- `widgets`, `log`, `error`, `settings`, `vu`: the texts and choices of the
  interface, the bounded log, errors, settings and level meters.

`app/` is the window (egui/eframe), audio output (rodio) and file dialogs
around the library. `tests/` runs the library on concrete files and values.
