use rust_vad::{
    cleanup_vad_iter, has_model_frame, init_vad_iter, is_model_frame, process_vad_iter,
    samples_from_le_bytes, Params, ProbLevel, SampleRate, SpeechState, StreamState, TimeStamp,
    VadIter, VadParams, VadRegistry, VadRes, MODEL_FRAME_SAMPLES,
};

const SPEECH: ProbLevel = ProbLevel { is_speech: true, is_low_prob: true };
const WEAK: ProbLevel = ProbLevel { is_speech: false, is_low_prob: true };
const QUIET: ProbLevel = ProbLevel { is_speech: false, is_low_prob: false };

fn default_stream() -> (Params, StreamState) {
    let params = Params::new(VadParams::default());
    let stream = StreamState::new(&params);
    (params, stream)
}

#[test]
fn default_params_give_64ms_frames_of_1024_samples() {
    let p = Params::new(VadParams::default());
    assert_eq!(p.frame_size, 64);
    assert_eq!(p.sample_rate, 16000);
    assert_eq!(p.sr_per_ms, 16);
    assert_eq!(p.frame_size_samples, 1024);
    assert_eq!(p.silence_stop_frame_cnt, 4);
    assert_eq!(p.pre_speech_threshold_frame_cnt, 3);
    assert_eq!(p.speech_threshold_frame_cnt, 1);
}

#[test]
fn params_round_silence_down_to_whole_frames() {
    let v = VadParams {
        frame_size: 32,
        sample_rate: 8000,
        silence_stop_ms: 100,
        pre_speech_threshold_frame_cnt: 2,
        speech_threshold_frame_cnt: 5,
    };
    let p = Params::new(v);
    assert_eq!(p.sr_per_ms, 8);
    assert_eq!(p.frame_size_samples, 256);
    assert_eq!(p.silence_stop_frame_cnt, 3);
    assert!(v.is_valid());
    let bad = VadParams { frame_size: 0, ..v };
    assert!(!bad.is_valid());
}

#[test]
fn onset_needs_pre_speech_frames_then_confirmation() {
    let (params, mut s) = default_stream();
    assert_eq!(s.update(&params, SPEECH), SpeechState::Silent);
    assert_eq!(s.update(&params, SPEECH), SpeechState::Silent);
    assert_eq!(s.update(&params, SPEECH), SpeechState::StartSpeaking);
    assert_eq!(s.update(&params, SPEECH), SpeechState::Speaking);
}

#[test]
fn a_quiet_frame_resets_the_onset_count() {
    let (params, mut s) = default_stream();
    s.update(&params, SPEECH);
    s.update(&params, SPEECH);
    assert_eq!(s.update(&params, WEAK), SpeechState::Silent);
    s.update(&params, SPEECH);
    assert_eq!(s.update(&params, SPEECH), SpeechState::Silent);
    assert_eq!(s.update(&params, SPEECH), SpeechState::StartSpeaking);
}

#[test]
fn weak_frames_confirm_suspected_speech() {
    let (params, mut s) = default_stream();
    for _ in 0..3 {
        s.update(&params, SPEECH);
    }
    assert_eq!(s.update(&params, WEAK), SpeechState::Speaking);
}

#[test]
fn hangover_ends_speech_after_the_silence_frames() {
    let (params, mut s) = default_stream();
    for _ in 0..10 {
        s.update(&params, SPEECH);
    }
    assert_eq!(s.get_state(), SpeechState::Speaking);
    assert_eq!(s.update(&params, QUIET), SpeechState::TempSilence);
    assert_eq!(s.update(&params, QUIET), SpeechState::TempSilence);
    assert_eq!(s.update(&params, QUIET), SpeechState::TempSilence);
    assert_eq!(s.update(&params, QUIET), SpeechState::StopSpeaking);
    assert_eq!(s.get_last_speech_frames(), 10);
    assert_eq!(s.get_last_speech_samples(), 10240);
    assert_eq!(s.get_last_speech_ms(), 640);
}

#[test]
fn stop_speaking_lasts_one_frame() {
    let (params, mut s) = default_stream();
    for _ in 0..4 {
        s.update(&params, SPEECH);
    }
    for _ in 0..4 {
        s.update(&params, QUIET);
    }
    assert_eq!(s.get_state(), SpeechState::StopSpeaking);
    assert_eq!(s.update(&params, SPEECH), SpeechState::Silent);
    // the frame counted towards the next onset
    s.update(&params, SPEECH);
    assert_eq!(s.update(&params, SPEECH), SpeechState::StartSpeaking);
}

#[test]
fn pause_resumes_into_speaking() {
    let (params, mut s) = default_stream();
    for _ in 0..4 {
        s.update(&params, SPEECH);
    }
    s.update(&params, QUIET);
    s.update(&params, QUIET);
    assert_eq!(s.update(&params, WEAK), SpeechState::Speaking);
    // the pause count starts over
    s.update(&params, QUIET);
    s.update(&params, QUIET);
    s.update(&params, QUIET);
    assert_eq!(s.get_state(), SpeechState::TempSilence);
    assert_eq!(s.update(&params, QUIET), SpeechState::StopSpeaking);
    assert_eq!(s.get_last_speech_frames(), 5);
}

#[test]
fn finish_round_records_or_discards() {
    let (params, mut s) = default_stream();
    for _ in 0..6 {
        s.update(&params, SPEECH);
    }
    s.finish_round(true);
    assert_eq!(s.get_state(), SpeechState::StopSpeaking);
    assert_eq!(s.get_last_speech_frames(), 6);
    for _ in 0..2 {
        s.update(&params, SPEECH);
    }
    s.finish_round(false);
    assert_eq!(s.get_state(), SpeechState::Silent);
    assert_eq!(s.get_last_speech_frames(), 6);
    assert!(s.can_take(SPEECH));
    assert!(s.can_take(QUIET));
}

#[test]
fn last_speech_ms_uses_the_stream_sample_rate() {
    let v = VadParams {
        frame_size: 32,
        sample_rate: 8000,
        silence_stop_ms: 64,
        pre_speech_threshold_frame_cnt: 3,
        speech_threshold_frame_cnt: 1,
    };
    let params = Params::new(v);
    assert_eq!(params.frame_size_samples, 256);
    let mut s = StreamState::new(&params);
    for _ in 0..10 {
        s.update(&params, SPEECH);
    }
    s.finish_round(true);
    assert_eq!(s.get_last_speech_frames(), 10);
    assert_eq!(s.get_last_speech_samples(), 2560);
    assert_eq!(s.get_last_speech_ms(), 320);
}

#[test]
fn last_speech_ms_rounds_half_up() {
    let params = Params {
        frame_size: 1,
        pre_speech_threshold_frame_cnt: 1,
        speech_threshold_frame_cnt: 1,
        silence_stop_frame_cnt: 2,
        sample_rate: 16000,
        sr_per_ms: 16,
        frame_size_samples: 8,
    };
    let mut s = StreamState::new(&params);
    // 1 frame of 8 samples: 0.5 ms
    s.update(&params, SPEECH);
    s.finish_round(true);
    assert_eq!(s.get_last_speech_samples(), 8);
    assert_eq!(s.get_last_speech_ms(), 1);
    // 3 frames: 24 samples, 1.5 ms
    for _ in 0..3 {
        s.update(&params, SPEECH);
    }
    s.finish_round(true);
    assert_eq!(s.get_last_speech_samples(), 24);
    assert_eq!(s.get_last_speech_ms(), 2);
    // 2 frames: 16 samples, 1 ms
    for _ in 0..2 {
        s.update(&params, SPEECH);
    }
    s.finish_round(true);
    assert_eq!(s.get_last_speech_ms(), 1);
}

#[test]
fn last_speech_ms_without_a_sample_rate_is_zero() {
    let params = Params {
        frame_size: 1,
        pre_speech_threshold_frame_cnt: 1,
        speech_threshold_frame_cnt: 1,
        silence_stop_frame_cnt: 2,
        sample_rate: 0,
        sr_per_ms: 0,
        frame_size_samples: 8,
    };
    let mut s = StreamState::new(&params);
    s.update(&params, SPEECH);
    s.finish_round(true);
    assert_eq!(s.get_last_speech_samples(), 8);
    assert_eq!(s.get_last_speech_ms(), 0);
}

#[test]
fn sample_rates() {
    assert_eq!(SampleRate::from_hz(8000), Some(SampleRate::EightkHz));
    assert_eq!(SampleRate::from_hz(16000), Some(SampleRate::SixteenkHz));
    assert_eq!(SampleRate::from_hz(44100), None);
    assert_eq!(SampleRate::SixteenkHz.hz(), 16000);
    assert_eq!(SampleRate::EightkHz.hz(), 8000);
    assert_eq!(TimeStamp::default(), TimeStamp { start: 0, end: 0 });
}

#[test]
fn frame_lengths() {
    assert_eq!(MODEL_FRAME_SAMPLES, 512);
    assert!(is_model_frame(512));
    assert!(!is_model_frame(511));
    assert!(!is_model_frame(1024));
    assert!(has_model_frame(512));
    assert!(has_model_frame(1024));
    assert!(!has_model_frame(0));
    assert!(!has_model_frame(480));
}

#[test]
fn pcm_little_endian_decoding() {
    let bytes = [0x01u8, 0x00, 0xff, 0xff, 0x00, 0x80, 0xff, 0x7f, 0x34, 0x12, 0x99];
    let samples = samples_from_le_bytes(&bytes);
    assert_eq!(samples, vec![1i16, -1, i16::MIN, i16::MAX, 0x1234]);
    assert!(samples_from_le_bytes(&[7u8]).is_empty());
}

struct FakeModel {
    calls: usize,
}

fn detect_fixed(level: ProbLevel) -> impl FnOnce(&mut FakeModel, &[i16]) -> Result<ProbLevel, String> {
    move |m: &mut FakeModel, _samples: &[i16]| {
        m.calls += 1;
        Ok(level)
    }
}

#[test]
fn registry_issues_fresh_handles() {
    let mut reg: VadRegistry<FakeModel> = VadRegistry::new();
    assert!(reg.can_register());
    let a = init_vad_iter(&mut reg, FakeModel { calls: 0 }, VadParams::default());
    let b = init_vad_iter(&mut reg, FakeModel { calls: 0 }, VadParams::default());
    assert_eq!(a, 1);
    assert_eq!(b, 2);
    cleanup_vad_iter(&mut reg, a);
    assert!(!reg.contains(a));
    assert!(reg.contains(b));
    let c = init_vad_iter(&mut reg, FakeModel { calls: 0 }, VadParams::default());
    assert_eq!(c, 3);
}

#[test]
fn processing_a_registered_stream() {
    let mut reg: VadRegistry<FakeModel> = VadRegistry::new();
    let h = init_vad_iter(&mut reg, FakeModel { calls: 0 }, VadParams::default());
    let frame = [0i16; 512];
    assert!(reg.ready_for(h, SPEECH));
    assert!(reg.ready_for(99, QUIET));
    let res = process_vad_iter(&mut reg, h, &frame, detect_fixed(SPEECH));
    assert_eq!(res.talk_state, 0);
    assert_eq!(res.msg, "");
    assert_eq!(res.jni_result(), 0);
}

#[test]
fn processing_an_unknown_handle() {
    let mut reg: VadRegistry<FakeModel> = VadRegistry::new();
    let frame = [0i16; 512];
    let res = process_vad_iter(&mut reg, 7, &frame, detect_fixed(SPEECH));
    assert_eq!(res.talk_state, -1);
    assert_eq!(res.msg, "Invalid VadIter handle");
    assert_eq!(res.jni_result(), -1);
}

#[test]
fn a_cleaned_up_handle_is_invalid() {
    let mut reg: VadRegistry<FakeModel> = VadRegistry::new();
    let h = init_vad_iter(&mut reg, FakeModel { calls: 0 }, VadParams::default());
    cleanup_vad_iter(&mut reg, h);
    let res = process_vad_iter(&mut reg, h, &[0i16; 512], detect_fixed(SPEECH));
    assert_eq!(res.talk_state, -1);
    assert_eq!(res.msg, "Invalid VadIter handle");
    // cleaning up twice is harmless
    cleanup_vad_iter(&mut reg, h);
    assert!(!reg.contains(h));
}

#[test]
fn a_model_error_is_reported_and_changes_nothing() {
    let mut reg: VadRegistry<FakeModel> = VadRegistry::new();
    let h = init_vad_iter(&mut reg, FakeModel { calls: 0 }, VadParams::default());
    let failing = |_m: &mut FakeModel, _s: &[i16]| -> Result<ProbLevel, String> {
        Err("Invalid frame size".to_string())
    };
    let res = process_vad_iter(&mut reg, h, &[0i16; 100], failing);
    assert_eq!(res.talk_state, -1);
    assert_eq!(res.msg, "Invalid frame size");
    assert_eq!(res.jni_result(), -1);
}

#[test]
fn vad_iter_runs_its_model_and_machine() {
    let mut it = VadIter::new(FakeModel { calls: 0 }, VadParams::default());
    assert_eq!(it.params.frame_size_samples, 1024);
    for _ in 0..3 {
        assert!(it.process(&[0i16; 4], detect_fixed(SPEECH)).is_ok());
    }
    assert_eq!(it.get_state(), SpeechState::StartSpeaking);
    let r: Result<SpeechState, u8> = it.process(&[0i16; 4], |_m: &mut FakeModel, _s: &[i16]| Err(3u8));
    assert_eq!(r, Err(3));
    assert_eq!(it.get_state(), SpeechState::StartSpeaking);
    assert!(it.speeches().is_empty());
    let res = VadRes { talk_state: 2, msg: String::new() };
    assert_eq!(res.jni_result(), 2);
}

#[test]
fn a_discarded_round_behaves_like_a_fresh_stream() {
    let (params, mut s) = default_stream();
    // record one utterance, then start another and discard it
    for _ in 0..5 {
        s.update(&params, SPEECH);
    }
    for _ in 0..4 {
        s.update(&params, QUIET);
    }
    for _ in 0..2 {
        s.update(&params, SPEECH);
    }
    s.finish_round(false);
    let mut fresh = StreamState::new(&params);
    let frames = [SPEECH, SPEECH, QUIET, SPEECH, SPEECH, SPEECH, WEAK, QUIET, WEAK, QUIET, QUIET, QUIET, QUIET, SPEECH];
    for f in frames {
        assert_eq!(s.update(&params, f), fresh.update(&params, f));
    }
    assert_eq!(s.get_last_speech_frames(), fresh.get_last_speech_frames());
}

#[test]
fn last_speech_changes_only_when_a_round_ends() {
    let (params, mut s) = default_stream();
    for _ in 0..6 {
        s.update(&params, SPEECH);
        assert_eq!(s.get_last_speech_frames(), 0);
    }
    for _ in 0..3 {
        s.update(&params, QUIET);
        assert_eq!(s.get_last_speech_frames(), 0);
    }
    assert_eq!(s.update(&params, QUIET), SpeechState::StopSpeaking);
    assert_eq!(s.get_last_speech_frames(), 6);
    for _ in 0..3 {
        s.update(&params, SPEECH);
        assert_eq!(s.get_last_speech_frames(), 6);
    }
    s.finish_round(false);
    assert_eq!(s.get_last_speech_frames(), 6);
}
