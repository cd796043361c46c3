# clip-extractor

A desktop app for turning a video into a clip. Paste a URL or a local file, it
transcribes the speech into a word-level transcript, pick the in and out points by
clicking words or dragging the waveform handles, and export the selection as MP3
or MP4.

The rules of the app are a library that Verus verifies; the window, the threads and
the programs it runs are ordinary Rust around it.

- `src/` — the verified library
  - `model` shared types, `app` the state and its transitions, `laws` what holds
    of the state over several messages and actions
  - `audio` waveform envelope, resampling plan, and the steps of decoding
  - `transcribe` words and their times from recognised segments
  - `download` yt-dlp: its arguments and its output
  - `export` ffmpeg: its arguments and the clip's name
  - `resources` the cache, and fetching a model
  - `paths`, `text`, `number`, `fixed`, `sample` paths, text, number literals,
    fixed-point numbers, and bit patterns of audio samples
- `tests/` — tests of the library on concrete values
- `app/` — the application: `window` (egui), `audio` (symphonia, ffmpeg),
  `transcribe` (whisper-rs), `download` (yt-dlp), `export` (ffmpeg), `playback`
  (rodio), `resources` (files and HTTP)

Times are whole nanoseconds, shares are billionths, and samples are the bit
patterns of single-precision numbers, so that the library needs no floating-point
arithmetic. A time is written, in a file name or on a command line, as the
single-precision number nearest to it. What has to be computed in floating point (mixing channels, averaging
and blending samples, positions on the screen) is in `app/`.

With the feature `embed-assets` (`--cfg 'feature="embed-assets"'` on the
compiler's command line) the application holds ffmpeg, yt-dlp and the base model,
taken at compile time from the files that `CLIP_EXTRACTOR_FFMPEG`,
`CLIP_EXTRACTOR_YTDLP` and `CLIP_EXTRACTOR_BASE_MODEL` name.
