# rust_vad

Voice activity detection for audio streams. A speech-probability model
(Silero, run with ONNX Runtime) scores each frame; a per-stream state machine
decides when speech starts, pauses, resumes and ends.

- `src/` — the verified library: the speech state machine
  (`ort_vad::speech_state`), detector settings and frame parameters
  (`ort_vad::utils`, `ort_vad::vad_iter`), detector streams over any model,
  the handle registry used by the bindings (`exposure`), and frame helpers
  (model frame length, 16-bit little-endian PCM decoding).
- `app/` — the runtime around it: the ONNX model and its real-valued
  thresholds, the process-wide registry, the JSON settings, the Java and
  Apple entry points, and a WAV-file runner.
- `tests/` — tests of the library.

The model file `model/silero_vad.onnx` is embedded at build time by `app/`.
