# screenvidcap

A screen recorder whose core is verified with Verus.

- `src/` — the verified library:
  - `stack.rs`: the frame stack the capture worker fills and the palette worker empties;
  - `palette.rs`: colour keys of RGBA pixels, per-colour counts over frames, and the
    choice of a palette of at most 256 colours;
  - `capture.rs`: which display holds the recorded region, decoding and rescaling a
    capture, what to do with each capture attempt, keeping frames, frame sizes and timing,
    and blank frames;
  - `post_processing.rs`: the GIF colour table, frame delay, frames in GIF form and the choice between
    GIF and MP4 output;
  - `ui.rs`: which display the recording controller goes on and what its placement
    routine is asked.
- `app/` — the program: argument parsing, worker threads, screen capture, GIF
  encoding to standard output and the controller window.
- `tests/` — tests of the library.
