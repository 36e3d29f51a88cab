# Degen Music Library

A keyboard-driven terminal music player for Cloudflare R2 and other
S3-compatible buckets, with its decisions written in Verus and proved.

Layout:

- `src/` — the verified library.
  - `app.rs` — the application state machine: key presses, timer ticks and the
    results of background work go in, the next state and a list of effects come
    out. Each transition is stated as a spec function over the state's view.
  - `laws.rs` — properties of the state machine and of the listing as a whole:
    stale results are ignored, the newest track request wins, loop modes, the
    well-formedness that every event keeps, ordering of listings, and more.
  - `listing.rs` — turning `ListObjectsV2` pages into folders and tracks, sorted
    and without repeats.
  - `storage.rs` — connection details, endpoint normalization (through `url`),
    the audio-extension filter and the connection to a bucket.
  - `s3.rs` — the S3 client, kept together with the endpoint, region,
    credentials and addressing style that it was built from.
  - `ui.rs` — every text that the screens show: sizes, durations, list lines,
    the masked secret field.
  - `visualizer.rs` — the window of recent samples that feeds the spectrum.
  - `text.rs` — characters and strings.
- `app/` — the program around it: terminal, event loop, S3 requests, audio
  output, the FFT and rendering.
- `tests/` — tests of the library on concrete values.
