# lord_varys

The verified core of a menu-bar app that records online meetings: the
microphone goes to the left channel of a 16 kHz WAV and the system audio to
the right, each side is transcribed on its own, and the two transcripts are
merged by time into `You` / `Them` segments.

- `src/` is the library, verified with Verus: file naming and path handling,
  the pairing of the two audio streams into frames, the chunking of the
  microphone stream, the steps of a transcription job, the decoding of the
  system-audio sidecar's byte stream, the merge and rendering of
  transcripts, the model catalogue and download resumption, permission and
  setup decisions, the tray's appearance and menu, meeting detection, and
  the checks behind the settings window.
- `app/` is the Tauri application around it: audio devices, the sidecar
  process, the SQLite settings store, HTTP downloads, the speech recogniser,
  windows and the tray, and the floating-point signal processing
  (resampling, gain, soft clipping).
- `tests/` exercises the library on concrete values.
