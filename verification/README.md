# audio_viewer

The core of an audio file viewer, verified with Verus, and the application around it.

`src/` holds what the viewer decides and computes, each function with its contract:

- `wav`, `waveform`, `silence`, `level`, `metrics`, `analysis`: what is read from the header of
  a file, and what its samples come to. Samples and levels are held as bit patterns of
  floating-point numbers, which the contracts order and compare.
- `duration`, `binary64`, `text`, `display`, `panel`: spans of time, the rounding of quotients,
  and how figures are written.
- `playback`, `transport`: the thread that plays a file, one step at a time, and the side of it
  that the view sees.
- `view`: the state behind the view, and what the user's actions do to it.
- `file`, `item`, `local`, `remote`, `store`, `error`, `table`: the audio files that are open in
  a project, on this machine or on another one.

What the modules promise together is stated in the `law_…` functions next to what they speak of.
Two functions of the standard library are trusted, `str::to_lowercase` and `str::to_uppercase`;
their specifications are in `file`.

`app/` does what takes floating-point arithmetic, a sound device or the user interface: it
decodes and measures sound, runs the playback thread, and shows the view. `tests/` runs the core,
with sounds that are decoded and measured as the application does.
