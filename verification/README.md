# talka

Push-to-talk dictation: hold (or toggle) a global hotkey, speak, and the
recognised text is pasted or typed into the focused application.

- `src/` is the verified library:
  - `state` — application status, settings, and the start/stop rules;
  - `commands` — the hotkey rules, the recording pipeline as a state
    machine (`RecordingSession`) that the application drives step by step,
    and model download planning and progress;
  - `transcriber` — the model catalogue, model file locations, the model
    cache (`Transcriber`) and transcript clean-up with the repetition guard;
  - `audio` — input device listing and lookup, silence-trim windows and the
    kept range, padding;
  - `text` — Unicode whitespace, trimming, words, path joining.
- `app/` is the desktop program around it: the Tauri window, tray and
  commands, microphone capture (cpal), resampling (rubato), the
  floating-point signal processing, Whisper recognition, clipboard and
  keyboard output, downloads and settings storage.
- `tests/` exercise the library on concrete values.
