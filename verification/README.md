# Duplicate video search

Finds videos that repeat one another, by their file content, by samples of their pictures and by
frames that a vision model compares, and merges what was found.

- `src/` is the library. All of its rules are verified with Verus: the index of videos and its
  scans, the comparison of pairs and the forming of groups, the ranking and naming of what is kept,
  the steps of a merge and of its rollback, the preparation of frames, and the settings. Numbers
  with a fraction are carried by their encoding (`double.rs`), and what stands on disk and
  the kind of machine are passed in as plain values.
- `tests/` runs the library on given values.
- `app/` is the program around it: files, ffmpeg and ffprobe, the SQLite database, the ONNX runtime,
  worker threads, and the arithmetic of similarities and confidences. `serve` answers the commands
  of a window, one JSON line each; the other commands print their outcome.

What the library believes of other code stands with the items marked `external_body` and
`assume_specification`: SHA-256, hexadecimal and JSON text in `digest.rs`, the fields of JSON lines in
`log_lines.rs`, lower case in `text.rs`, and quoted text in `reports.rs`.
