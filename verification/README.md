# aviutl2_omt_live_output

An AviUtl2 plugin that renders the open scene to memory ("bake"), then sends
it over OMT (Open Media Transport): it holds the first frame until the user
cues, plays by the wall clock (skipping frames rather than falling behind),
and holds the last frame when playback runs out.

The library in `src/` is verified with Verus:

- `media` — RGBA to tight BGRA conversion with pitch and alpha detection,
  planar float audio as little-endian bytes, the session clock's strictly
  increasing timestamps, the playhead, the preview downscale, interval and
  size arithmetic, the byte-count label and the error messages.
- `player` — the cue player's stages (idle, baking, hold first, playing,
  hold last) and what it outputs at each moment.
- `bake` — the frame-by-frame bake: video then audio for each frame.
- `playback` — one playback tick: which video and audio go to the sender.
- `sender` — the latest-wins video slot, the bounded audio queue that drops
  on overflow, and the audio-first drain order.
- `config` — the settings and their normalisation.
- `clock` — the calls into `std::time` the library makes.

`app/` holds the plugin around it: the host's events, the bake driven by the
host's render callbacks, the playback and sender threads, the OMT sender and
the project-file format of the settings.
