# speakeasy

The logic of a push-to-talk dictation tool, verified with Verus: transcript
cleanup (filler removal, dictation commands, action commands, snippets), the
text side of the local rewrite model (prompt, chat messages, reply cleanup),
daily usage statistics, and the decisions of the dictation pipeline.

- `src/text.rs` — the character model: whitespace, trimming, word counts,
  decimal notation, and the string helpers built on it.
- `src/pattern.rs` — regular expressions through the `regex` crate.
- `src/refiner.rs` — fillers, action and dictation commands, the rewrite
  prompt and reply, the local model server's command line and endpoints.
- `src/config.rs` — settings, snippets, statistics and day labels.
- `src/pipeline.rs` — what to do with a transcript, with a settings change,
  with a key poll; the status panel; the laws that span these.
- `app/` — the desktop program around the library: audio capture, speech
  recognition, the settings file, the model server process, the clipboard and
  key presses.
