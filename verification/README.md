# Loomik

Loomik records a display, a window, an image or a video as the background of a
screen recording, with an optional circular camera overlay and microphone
narration, and exports MP4, MOV or MKV through FFmpeg.

This crate holds Loomik's recording core as a Verus-verified library:

- `model`: settings vocabulary, phases, the 3–2–1–0 countdown and the
  pause-aware recording timeline shared by video and audio.
- `recording`: how controls move the timeline, how the worker and the UI
  answer commands and events, and which output slot is encoded next from
  which acquisition time; the order in which a take reports its progress.
- `frame`: strided frame packing, the bounded acquisition-time frame history,
  full-frame camera rendering and circular camera blending.
- `audio`: placement of timestamped audio on the output sample timeline.
- `capture`: YUYV and X11 pixel conversion, the mapping of device
  timestamps (QPC, CLOCK_MONOTONIC, audio stream time) onto the host timeline,
  and on Linux which sources may be recorded and which windows are listed.
- `encoder`: FFmpeg arguments for the streaming encoder, hardware probes and
  the fallback to software encoding, the final export's options and audio
  mix, and where FFmpeg's tools are looked for.
- `media`: canvas sizes, the upright size of image and video backgrounds,
  image backgrounds (fit or fill on the canvas colour), the background
  decoder's filter chain and the restricted FFmpeg inputs.
- `session`, `metrics`, `text`, `timeline`: file names of a take, the latency
  percentile, verified string helpers and the host clock.

`app/` is the command-line recorder around the library: FFmpeg processes,
file and image I/O, threads, and the floating-point parts (quality scaling,
camera circle geometry, audio interpolation and latency statistics).

Verus checks every function of the library against its contract, except the
few marked `#[verifier::external_body]`: those only call `std`, `image`,
`fast_image_resize`, `uuid` or `chrono`, and their contracts are trusted as
stated in their doc comments. The tests under `tests/` exercise the library
on concrete values.
