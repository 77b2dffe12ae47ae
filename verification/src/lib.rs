//! Voice activity detection: a per-stream speech state machine driven by a
//! speech-probability model, and a registry of detector streams by handle.
pub mod exposure;
pub mod frame;
pub mod ort_vad;

pub use exposure::{cleanup_vad_iter, init_vad_iter, process_vad_iter, VadRegistry, VadRes};
pub use frame::{has_model_frame, is_model_frame, samples_from_le_bytes, MODEL_FRAME_SAMPLES};
pub use ort_vad::speech_state::{ProbLevel, SpeechState, StreamState, StreamView};
pub use ort_vad::utils::{SampleRate, TimeStamp, VadParams};
pub use ort_vad::vad_iter::{Params, VadIter, VadIterView, VadState};
