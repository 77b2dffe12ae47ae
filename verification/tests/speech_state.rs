use rust_vad::{Params, ProbLevel, SpeechState, StreamState, VadParams};

/// Classifies a speech probability as the detector does with the default
/// threshold of 0.5: the speech threshold is at least 0.3 and the
/// continuation threshold lies 0.15 below it.
fn level(prob: f32) -> ProbLevel {
    let speech_threshold = 0.5f32.max(0.3);
    let low_prob_threshold = speech_threshold - 0.15;
    ProbLevel {
        is_speech: prob > speech_threshold,
        is_low_prob: prob > low_prob_threshold,
    }
}

#[test]
fn it_works() {}

#[test]
fn test_initial_state() {
    let params = Params::new(VadParams::default());
    let stream_state = StreamState::new(&params);
    assert_eq!(stream_state.get_state(), SpeechState::Silent);
}

#[test]
fn test_start_speaking() {
    let params = Params::new(VadParams::default());
    let mut stream_state = StreamState::new(&params);

    for _ in 0..3 {
        stream_state.update(&params, level(0.55));
    }

    assert_eq!(stream_state.get_state(), SpeechState::StartSpeaking);
}

#[test]
fn test_speaking() {
    let params = Params::new(VadParams::default());
    let mut stream_state = StreamState::new(&params);

    for _ in 0..7 {
        stream_state.update(&params, level(0.55));
    }

    stream_state.update(&params, level(0.55));

    assert_eq!(stream_state.get_state(), SpeechState::Speaking);
}

#[test]
fn test_temp_silence() {
    let params = Params::new(VadParams::default());

    let mut stream_state = StreamState::new(&params);

    for _ in 0..6 {
        stream_state.update(&params, level(0.55));
    }

    stream_state.update(&params, level(0.55));

    stream_state.update(&params, level(0.3));

    assert_eq!(stream_state.get_state(), SpeechState::TempSilence);
}

#[test]
fn test_resume_speaking() {
    let params = Params::new(VadParams::default());
    let mut stream_state = StreamState::new(&params);

    for _ in 0..3 {
        stream_state.update(&params, level(0.55));
    }

    stream_state.update(&params, level(0.55));

    stream_state.update(&params, level(0.45));

    stream_state.update(&params, level(0.55));

    assert_eq!(stream_state.get_state(), SpeechState::Speaking);
}

#[test]
fn test_stop_speaking() {
    let params = Params::new(VadParams::default());
    let mut stream_state = StreamState::new(&params);

    for _ in 0..3 {
        stream_state.update(&params, level(0.55));
    }

    stream_state.update(&params, level(0.55));

    stream_state.update(&params, level(0.3));

    for _ in 0..3 {
        stream_state.update(&params, level(0.3));
    }

    assert_eq!(stream_state.get_state(), SpeechState::StopSpeaking);
}

#[test]
fn test_return_to_silent() {
    let params = Params::new(VadParams::default());
    let mut stream_state = StreamState::new(&params);

    for _ in 0..3 {
        stream_state.update(&params, level(0.55));
    }

    stream_state.update(&params, level(0.55));

    stream_state.update(&params, level(0.3));

    for _ in 0..4 {
        stream_state.update(&params, level(0.3));
    }

    assert_eq!(stream_state.get_state(), SpeechState::Silent);
}

#[test]
fn test_false_trigger() {
    let params = Params::new(VadParams::default());
    let mut stream_state = StreamState::new(&params);

    for _ in 0..3 {
        stream_state.update(&params, level(0.55));
    }

    stream_state.update(&params, level(0.3));

    assert_eq!(stream_state.get_state(), SpeechState::Silent);
}

#[test]
fn test_record_last_speech_duration() {
    let params = Params::new(VadParams::default());
    let mut stream_state = StreamState::new(&params);

    for _ in 0..3 {
        stream_state.update(&params, level(0.55));
    }

    stream_state.update(&params, level(0.55));

    for _ in 0..1000 {
        stream_state.update(&params, level(0.55));
    }

    stream_state.update(&params, level(0.3));

    for _ in 0..3 {
        stream_state.update(&params, level(0.3));
    }

    let expected_duration = (64 * 1004) as f32;
    assert_eq!(
        (stream_state.get_last_speech_ms() as f32).round(),
        expected_duration.round()
    );
}
