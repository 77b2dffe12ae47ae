//! A detector stream: a speech-probability model, its frame parameters and
//! its speech state machine.
use vstd::prelude::*;

use super::speech_state::{ProbLevel, SpeechState, StreamState, StreamView};
use super::utils::{TimeStamp, VadParams};

verus! {

/// Frame parameters derived from [`VadParams`].
#[derive(Debug, Clone, Copy, PartialEq, Eq, Structural)]
pub struct Params {
    pub frame_size: usize,
    pub pre_speech_threshold_frame_cnt: usize,
    pub speech_threshold_frame_cnt: usize,
    pub silence_stop_frame_cnt: usize,
    pub sample_rate: usize,
    pub sr_per_ms: usize,
    pub frame_size_samples: usize,
}

impl Params {
    /// The frame parameters that the settings give.
    pub open spec fn of(value: VadParams) -> Params {
        let sr_per_ms = value.sample_rate / 1000;
        Params {
            frame_size: value.frame_size,
            pre_speech_threshold_frame_cnt: value.pre_speech_threshold_frame_cnt,
            speech_threshold_frame_cnt: value.speech_threshold_frame_cnt,
            silence_stop_frame_cnt: value.silence_stop_ms / value.frame_size,
            sample_rate: value.sample_rate,
            sr_per_ms: sr_per_ms,
            frame_size_samples: (value.frame_size * sr_per_ms) as usize,
        }
    }

    /// Derives the frame parameters: samples per millisecond, samples per
    /// frame, and how many frames of silence end an utterance.
    pub fn new(value: VadParams) -> (p: Params)
        requires
            value.valid(),
        ensures
            p == Params::of(value),
    {
        let frame_size = value.frame_size;
        let sample_rate = value.sample_rate;
        let sr_per_ms = sample_rate / 1000;
        let frame_size_samples = frame_size * sr_per_ms;
        let silence_stop_frame_cnt = value.silence_stop_ms / frame_size;
        Params {
            frame_size,
            pre_speech_threshold_frame_cnt: value.pre_speech_threshold_frame_cnt,
            speech_threshold_frame_cnt: value.speech_threshold_frame_cnt,
            silence_stop_frame_cnt,
            sample_rate,
            sr_per_ms,
            frame_size_samples,
        }
    }
}


/// Coarse voice activity states.
#[derive(Debug, Clone, Copy, PartialEq, Eq, Structural)]
pub enum VadState {
    Silence,
    Start,
    Speaking,
    End,
}

/// The mathematical state of a [`VadIter`].
pub struct VadIterView<M> {
    pub model: M,
    pub params: Params,
    pub stream: StreamView,
}

/// A detector stream over a model of type `M`.
///
/// The model turns a frame of samples into a [`ProbLevel`] (or an error);
/// the stream's state machine does the rest.
#[derive(Debug)]
pub struct VadIter<M> {
    model: M,
    pub params: Params,
    stream_state: StreamState,
}

impl<M> View for VadIter<M> {
    type V = VadIterView<M>;

    closed spec fn view(&self) -> VadIterView<M> {
        VadIterView { model: self.model, params: self.params, stream: self.stream_state@ }
    }
}

impl<M> VadIter<M> {
    /// A silent stream over `model` with the frame parameters of `params`.
    pub fn new(model: M, params: VadParams) -> (it: Self)
        requires
            params.valid(),
        ensures
            it@.model == model,
            it@.params == Params::of(params),
            it@.stream == StreamView::initial(Params::of(params)),
            it@.stream.inv(),
    {
        let p = Params::new(params);
        let s_state = StreamState::new(&p);
        VadIter { model, params: p, stream_state: s_state }
    }

    /// Runs the model on one frame and feeds its verdict to the state
    /// machine; a model error is passed on and changes nothing else.
    pub fn process<E, F: FnOnce(&mut M, &[i16]) -> Result<ProbLevel, E>>(
        &mut self,
        samples: &[i16],
        detect: F,
    ) -> (r: Result<SpeechState, E>)
        requires
            forall|m: &mut M| #[trigger] call_requires(detect, (m, samples)),
            forall|m: &mut M, out: Result<ProbLevel, E>|
                #[trigger] call_ensures(detect, (m, samples), out) ==> old(self)@.stream.fits_outcome(out),
        ensures
            final(self)@.params == old(self)@.params,
            old(self)@.stream.inv() ==> final(self)@.stream.inv(),
            exists|m: &mut M, out: Result<ProbLevel, E>|
                {
                    &&& *m == old(self)@.model
                    &&& *final(m) == final(self)@.model
                    &&& call_ensures(detect, (m, samples), out)
                    &&& match out {
                        Ok(lv) => {
                            &&& final(self)@.stream == old(self)@.stream.step(lv)
                            &&& r == Ok::<SpeechState, E>(final(self)@.stream.state)
                        },
                        Err(e) => {
                            &&& final(self)@.stream == old(self)@.stream
                            &&& r == Err::<SpeechState, E>(e)
                        },
                    }
                },
    {
        let out = detect(&mut self.model, samples);
        match out {
            Ok(level) => {
                proof {
                    assert(self.stream_state@.step_fits(level));
                }
                let state = self.stream_state.update(&self.params, level);
                Ok(state)
            },
            Err(e) => Err(e),
        }
    }

    /// The speeches recorded by the stream.
    pub fn speeches(&self) -> (v: &Vec<TimeStamp>)
        ensures
            v@ == self@.stream.speeches,
    {
        self.stream_state.speeches()
    }

    /// The stream's current state.
    pub fn get_state(&self) -> (st: SpeechState)
        ensures
            st == self@.stream.state,
    {
        self.stream_state.get_state()
    }

    /// The stream's speech state machine.
    pub fn stream_state(&self) -> (s: &StreamState)
        ensures
            s@ == self@.stream,
    {
        &self.stream_state
    }
}

/// The frame parameters keep the settings' frame counts, frame length and
/// sample rate as they are; samples per millisecond is the sample rate in
/// whole thousands; a frame holds `frame_size` milliseconds of those
/// samples; and the silence that ends an utterance is the whole number of
/// frames that fit in `silence_stop_ms`.
pub proof fn lemma_params_keep_settings(v: VadParams)
    requires
        v.valid(),
    ensures
        ({
            let p = Params::of(v);
            &&& p.frame_size == v.frame_size
            &&& p.sample_rate == v.sample_rate
            &&& p.pre_speech_threshold_frame_cnt == v.pre_speech_threshold_frame_cnt
            &&& p.speech_threshold_frame_cnt == v.speech_threshold_frame_cnt
            &&& p.sr_per_ms * 1000 <= v.sample_rate < p.sr_per_ms * 1000 + 1000
            &&& p.frame_size_samples == v.frame_size * p.sr_per_ms
            &&& p.silence_stop_frame_cnt * v.frame_size <= v.silence_stop_ms
            &&& v.silence_stop_ms < (p.silence_stop_frame_cnt + 1) * v.frame_size
        }),
{
    let p = Params::of(v);
    let sr = v.sample_rate as int;
    let q = p.sr_per_ms as int;
    assert(q * 1000 <= sr < q * 1000 + 1000) by (nonlinear_arith)
        requires
            q == sr / 1000,
            sr >= 0,
    ;
    let f = v.frame_size as int;
    let ms = v.silence_stop_ms as int;
    let c = p.silence_stop_frame_cnt as int;
    assert(c * f <= ms < (c + 1) * f) by (nonlinear_arith)
        requires
            c == ms / f,
            f > 0,
            ms >= 0,
    ;
}

} // verus!
