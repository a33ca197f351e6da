# Tarjama

Offline Turkish video/audio to Arabic subtitles: whisper.cpp recognises the
speech, OPUS-MT (ONNX) translates it, and a native GUI shows and exports the
subtitles. The heavy work runs in a separate engine process, so a native
crash cannot close the application; the GUI explains it and retries down
the chain of engine builds (GPU, then fast, then maximum-compatibility).

## Layout

- `src/` — the verified library (Verus):
  - `text` — the character-level model of std's string operations;
  - `model` — model kinds, subtitles, the engine event protocol, jobs;
  - `srt` — SubRip, WebVTT and plain-text writers;
  - `glossary` — `turkish=arabic` glossaries and their application;
  - `wav` — RIFF WAVE (16-bit PCM) parsing;
  - `pipeline` — the engine's pipeline as a state machine;
  - `engine` — backend report, capabilities line, whisper output, `--cli`;
  - `translate` — model I/O names, cache pairing, limits, tokenizer I/O;
  - `supervisor` — engine builds, capabilities probe, stdout/stderr handling;
  - `ui` — the GUI's state and its reactions to messages and engine events.
- `tests/` — tests of the library on concrete values.
- `app/` — the program: processes, files, whisper.cpp and ONNX Runtime, the
  beam search, the iced GUI. It embeds the Noto Sans fonts and the selftest
  sample from `assets/`, which is not part of this tree.
