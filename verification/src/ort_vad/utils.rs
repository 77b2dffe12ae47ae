//! Detector settings, sample rates and time spans.
use vstd::prelude::*;

verus! {

/// The sample rates the model accepts.
#[derive(Debug, Clone, Copy, PartialEq, Eq, Structural)]
pub enum SampleRate {
    EightkHz,
    SixteenkHz,
}

impl SampleRate {
    /// The rate in samples per second.
    pub open spec fn spec_hz(self) -> nat {
        match self {
            SampleRate::EightkHz => 8000,
            SampleRate::SixteenkHz => 16000,
        }
    }

    /// The rate in samples per second.
    pub fn hz(self) -> (r: usize)
        ensures
            r == self.spec_hz(),
    {
        match self {
            SampleRate::EightkHz => 8000,
            SampleRate::SixteenkHz => 16000,
        }
    }

    /// The supported rate of `hz` samples per second, if there is one.
    pub fn from_hz(hz: u32) -> (r: Option<SampleRate>)
        ensures
            r matches Some(rate) ==> rate.spec_hz() == hz,
            r is None <==> hz != 8000 && hz != 16000,
    {
        if hz == 8000 {
            Some(SampleRate::EightkHz)
        } else if hz == 16000 {
            Some(SampleRate::SixteenkHz)
        } else {
            None
        }
    }
}

/// A span of a stream, in samples.
#[derive(Debug, Clone, Copy, PartialEq, Eq, Structural)]
pub struct TimeStamp {
    pub start: i64,
    pub end: i64,
}

impl Default for TimeStamp {
    fn default() -> (t: Self)
        ensures
            t == (TimeStamp { start: 0, end: 0 }),
    {
        TimeStamp { start: 0, end: 0 }
    }
}

/// The frame-counting settings of the detector, as configured by the user.
///
/// The speech threshold and the maximum speech duration are real numbers;
/// they stay with the probability classifier beside these settings.
#[derive(Debug, Clone, Copy, PartialEq, Eq, Structural)]
pub struct VadParams {
    /// Length of a frame in milliseconds.
    pub frame_size: usize,
    /// Samples per second.
    pub sample_rate: usize,
    /// Silence, in milliseconds, that ends an utterance.
    pub silence_stop_ms: usize,
    /// Consecutive speech frames before speech is suspected.
    pub pre_speech_threshold_frame_cnt: usize,
    /// Further frames before speech is confirmed.
    pub speech_threshold_frame_cnt: usize,
}

impl Default for VadParams {
    fn default() -> (p: Self)
        ensures
            p == (VadParams {
                frame_size: 64,
                sample_rate: 16000,
                silence_stop_ms: 256,
                pre_speech_threshold_frame_cnt: 3,
                speech_threshold_frame_cnt: 1,
            }),
    {
        VadParams {
            frame_size: 64,
            sample_rate: 16000,
            silence_stop_ms: 256,
            pre_speech_threshold_frame_cnt: 3,
            speech_threshold_frame_cnt: 1,
        }
    }
}

impl VadParams {
    /// The settings can be turned into frame parameters: frames are not
    /// empty and a frame's sample count fits in a `usize`.
    pub open spec fn valid(self) -> bool {
        &&& self.frame_size > 0
        &&& self.frame_size * (self.sample_rate / 1000) <= usize::MAX
    }

    /// Whether the settings can be turned into frame parameters.
    pub fn is_valid(&self) -> (b: bool)
        ensures
            b == self.valid(),
    {
        self.frame_size > 0 && self.frame_size.checked_mul(self.sample_rate / 1000).is_some()
    }
}

} // verus!
