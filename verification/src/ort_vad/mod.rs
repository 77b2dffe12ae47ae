//! The detector: settings, the speech state machine and detector streams.
pub mod speech_state;
pub mod utils;
pub mod vad_iter;
