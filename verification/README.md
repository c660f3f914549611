# murmure

Verified core of the Murmure speech-to-text desktop application.

- `src/filler_cleaner.rs` — transcript cleaning (filler words, repeated
  words, spaces, trimming) with an exact specification; `src/cleaning_laws.rs`
  proves that cleaned text is clean, that clean text is left unchanged and
  that cleaning is idempotent and never lengthens a text.
- `src/recorder.rs` — the decisions of the audio recorder: the
  voice-activity filter (pre-roll and tail padding), the silence auto-stop of
  wake-word recordings and the maximum duration; over a whole recording the
  filter writes an in-order subsequence of the samples it receives.
- `src/settings.rs` — settings types and their defaults.
- `src/model.rs` — the order in which the model is looked for on disk.
- `src/classes.rs` — how characters are classified for cleaning (the
  Unicode `\w` class of `regex-syntax`, `std`'s whitespace and lowercase), or
  by a caller-given table.
- `src/chars.rs` — the character functions taken from `regex-syntax` and `std`.
- `app/` — audio capture (cpal, hound), settings files (serde) and model
  lookup on disk, around the library.
