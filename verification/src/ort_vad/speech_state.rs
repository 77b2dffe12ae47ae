//! The per-stream speech state machine.
//!
//! Each audio frame is classified by the caller (from the model's speech
//! probability and the two thresholds) into a [`ProbLevel`]; the machine then
//! decides whether the speaker is silent, about to speak, speaking, briefly
//! pausing, or has just stopped.
use vstd::prelude::*;

use super::utils::TimeStamp;
use super::vad_iter::Params;

verus! {

/// The state of a stream after a frame.
#[derive(Debug, Clone, Copy, PartialEq, Eq, Structural)]
pub enum SpeechState {
    /// Nobody is speaking.
    Silent,
    /// Enough consecutive speech frames were seen to suspect speech.
    StartSpeaking,
    /// Speech is confirmed and going on.
    Speaking,
    /// A pause inside speech that may still turn back into speech.
    TempSilence,
    /// The pause lasted long enough: the utterance is over (one frame only).
    StopSpeaking,
}

/// How one frame's speech probability compares with the two thresholds.
#[derive(Debug, Clone, Copy, PartialEq, Eq, Structural)]
pub struct ProbLevel {
    /// The probability is above the speech threshold.
    pub is_speech: bool,
    /// The probability is above the (lower) continuation threshold.
    pub is_low_prob: bool,
}

/// The mathematical state of a [`StreamState`].
#[verifier::ext_equal]
pub struct StreamView {
    pub sample_per_frame: u32,
    pub sample_rate: usize,
    pub state: SpeechState,
    pub temp_silence_cnt: u32,
    pub silence_threshold_cnt: u32,
    pub speech_cnt: u32,
    pub last_speech_cnt: u32,
    pub current_speech: TimeStamp,
    pub speeches: Seq<TimeStamp>,
    pub pre_speech_threshold_cnt: u32,
    pub speech_threshold_cnt: u32,
    pub max_speech_cnt: u32,
}

impl StreamView {
    /// The state a stream starts in, for the given parameters.
    pub open spec fn initial(params: Params) -> StreamView {
        StreamView {
            sample_per_frame: params.frame_size_samples as u32,
            sample_rate: params.sample_rate,
            state: SpeechState::Silent,
            temp_silence_cnt: 0,
            silence_threshold_cnt: params.silence_stop_frame_cnt as u32,
            speech_cnt: 0,
            last_speech_cnt: 0,
            current_speech: TimeStamp { start: 0, end: 0 },
            speeches: Seq::empty(),
            pre_speech_threshold_cnt: params.pre_speech_threshold_frame_cnt as u32,
            speech_threshold_cnt: params.speech_threshold_frame_cnt as u32,
            max_speech_cnt: u32::MAX,
        }
    }

    /// Closing a round: back to `Silent` (discarded) or to `StopSpeaking`
    /// (recorded, keeping the length of the speech in frames).
    pub open spec fn finish(self, record: bool) -> StreamView {
        StreamView {
            state: if record { SpeechState::StopSpeaking } else { SpeechState::Silent },
            temp_silence_cnt: 0,
            last_speech_cnt: if record { self.speech_cnt } else { self.last_speech_cnt },
            speech_cnt: 0,
            ..self
        }
    }

    /// The same state with one more speech frame counted.
    pub open spec fn counted(self) -> StreamView {
        StreamView { speech_cnt: (self.speech_cnt + 1) as u32, ..self }
    }

    /// The transition taken on one frame.
    pub open spec fn step(self, lv: ProbLevel) -> StreamView {
        match self.state {
            SpeechState::Silent => {
                if lv.is_speech {
                    let s = self.counted();
                    if s.speech_cnt >= self.pre_speech_threshold_cnt {
                        StreamView { state: SpeechState::StartSpeaking, ..s }
                    } else {
                        s
                    }
                } else {
                    StreamView { speech_cnt: 0, ..self }
                }
            },
            SpeechState::StartSpeaking => {
                if lv.is_low_prob {
                    let s = self.counted();
                    if s.speech_cnt >= self.speech_threshold_cnt + self.pre_speech_threshold_cnt {
                        StreamView { state: SpeechState::Speaking, ..s }
                    } else {
                        s
                    }
                } else {
                    self.finish(false)
                }
            },
            SpeechState::Speaking => {
                if lv.is_low_prob {
                    let s = self.counted();
                    if s.speech_cnt > self.max_speech_cnt {
                        s.finish(true)
                    } else {
                        s
                    }
                } else {
                    StreamView {
                        state: SpeechState::TempSilence,
                        temp_silence_cnt: (self.temp_silence_cnt + 1) as u32,
                        ..self
                    }
                }
            },
            SpeechState::TempSilence => {
                if lv.is_low_prob {
                    StreamView { state: SpeechState::Speaking, temp_silence_cnt: 0, ..self.counted() }
                } else {
                    let s = StreamView {
                        temp_silence_cnt: (self.temp_silence_cnt + 1) as u32,
                        ..self
                    };
                    if s.temp_silence_cnt >= self.silence_threshold_cnt {
                        s.finish(true)
                    } else {
                        s
                    }
                }
            },
            SpeechState::StopSpeaking => {
                let s = StreamView { state: SpeechState::Silent, ..self };
                if lv.is_speech {
                    s.counted()
                } else {
                    s
                }
            },
        }
    }

    /// No counter overflows on this frame (the counters are `u32`).
    pub open spec fn step_fits(self, lv: ProbLevel) -> bool {
        match self.state {
            SpeechState::Silent => lv.is_speech ==> self.speech_cnt < u32::MAX,
            SpeechState::StartSpeaking => lv.is_low_prob ==> {
                &&& self.speech_cnt < u32::MAX
                &&& self.speech_threshold_cnt + self.pre_speech_threshold_cnt <= u32::MAX
            },
            SpeechState::Speaking => if lv.is_low_prob {
                self.speech_cnt < u32::MAX
            } else {
                self.temp_silence_cnt < u32::MAX
            },
            SpeechState::TempSilence => if lv.is_low_prob {
                self.speech_cnt < u32::MAX
            } else {
                self.temp_silence_cnt < u32::MAX
            },
            SpeechState::StopSpeaking => lv.is_speech ==> self.speech_cnt < u32::MAX,
        }
    }

    /// No counter overflows on a frame with this verdict (an error is no frame).
    pub open spec fn fits_outcome<E>(self, out: Result<ProbLevel, E>) -> bool {
        out matches Ok(lv) ==> self.step_fits(lv)
    }

    /// The states the machine can be in.
    pub open spec fn inv(self) -> bool {
        &&& (self.state != SpeechState::TempSilence ==> self.temp_silence_cnt == 0)
        &&& (self.state == SpeechState::TempSilence ==> self.temp_silence_cnt >= 1)
        &&& (self.state == SpeechState::StopSpeaking ==> self.speech_cnt == 0)
        &&& (self.state == SpeechState::StartSpeaking ==> {
            &&& self.speech_cnt >= self.pre_speech_threshold_cnt
            &&& self.speech_cnt >= 1
        })
        &&& ((self.state == SpeechState::Speaking || self.state == SpeechState::TempSilence)
            ==> self.speech_cnt >= self.pre_speech_threshold_cnt + self.speech_threshold_cnt)
        &&& self.speeches.len() == 0
        &&& self.max_speech_cnt == u32::MAX
    }

    /// The same state with another recorded speech length.
    pub open spec fn with_last(self, last_speech_cnt: u32) -> StreamView {
        StreamView { last_speech_cnt: last_speech_cnt, ..self }
    }

    /// The two states share their settings and recorded speeches.
    pub open spec fn same_config(self, other: StreamView) -> bool {
        &&& self.sample_per_frame == other.sample_per_frame
        &&& self.sample_rate == other.sample_rate
        &&& self.silence_threshold_cnt == other.silence_threshold_cnt
        &&& self.pre_speech_threshold_cnt == other.pre_speech_threshold_cnt
        &&& self.speech_threshold_cnt == other.speech_threshold_cnt
        &&& self.max_speech_cnt == other.max_speech_cnt
        &&& self.current_speech == other.current_speech
        &&& self.speeches == other.speeches
    }

    /// The state after the given frames, in order.
    pub open spec fn run(self, frames: Seq<ProbLevel>) -> StreamView
        decreases frames.len(),
    {
        if frames.len() == 0 {
            self
        } else {
            self.run(frames.drop_last()).step(frames.last())
        }
    }

    /// The length of the last recorded speech in samples.
    pub open spec fn last_speech_samples(self) -> nat {
        (self.last_speech_cnt * self.sample_per_frame) as nat
    }

    /// The length of the last recorded speech in milliseconds at the
    /// stream's sample rate, rounded to the nearest millisecond (a half
    /// rounds up); 0 when the sample rate is 0.
    pub open spec fn last_speech_ms(self) -> nat {
        if self.sample_rate == 0 {
            0
        } else {
            ((self.last_speech_samples() * 1000 + self.sample_rate / 2) / (self.sample_rate as int)) as nat
        }
    }
}

/// A stream's speech state machine.
#[derive(Debug)]
pub struct StreamState {
    sample_per_frame: u32,
    sample_rate: usize,
    speech_state: SpeechState,
    temp_silence_cnt: u32,
    silence_threshold_cnt: u32,
    speech_cnt: u32,
    last_speech_cnt: u32,
    current_speech: TimeStamp,
    speeches: Vec<TimeStamp>,
    pre_speech_threshold_cnt: u32,
    speech_threshold_cnt: u32,
    max_speech_cnt: u32,
}

impl View for StreamState {
    type V = StreamView;

    closed spec fn view(&self) -> StreamView {
        StreamView {
            sample_per_frame: self.sample_per_frame,
            sample_rate: self.sample_rate,
            state: self.speech_state,
            temp_silence_cnt: self.temp_silence_cnt,
            silence_threshold_cnt: self.silence_threshold_cnt,
            speech_cnt: self.speech_cnt,
            last_speech_cnt: self.last_speech_cnt,
            current_speech: self.current_speech,
            speeches: self.speeches@,
            pre_speech_threshold_cnt: self.pre_speech_threshold_cnt,
            speech_threshold_cnt: self.speech_threshold_cnt,
            max_speech_cnt: self.max_speech_cnt,
        }
    }
}

impl StreamState {
    /// A silent stream for the given parameters.
    pub fn new(params: &Params) -> (s: Self)
        ensures
            s@ == StreamView::initial(*params),
            s@.inv(),
    {
        let s = StreamState {
            sample_per_frame: params.frame_size_samples as u32,
            sample_rate: params.sample_rate,
            speech_state: SpeechState::Silent,
            temp_silence_cnt: 0,
            silence_threshold_cnt: params.silence_stop_frame_cnt as u32,
            speech_cnt: 0,
            last_speech_cnt: 0,
            current_speech: TimeStamp { start: 0, end: 0 },
            speeches: Vec::new(),
            pre_speech_threshold_cnt: params.pre_speech_threshold_frame_cnt as u32,
            speech_threshold_cnt: params.speech_threshold_frame_cnt as u32,
            max_speech_cnt: u32::MAX,
        };
        assert(s@ =~= StreamView::initial(*params));
        s
    }

    /// Ends the current round: `StopSpeaking` when `record`, else `Silent`.
    pub fn finish_round(&mut self, record: bool)
        ensures
            final(self)@ == old(self)@.finish(record),
            old(self)@.inv() ==> final(self)@.inv(),
    {
        self.speech_state = if !record {
            SpeechState::Silent
        } else {
            SpeechState::StopSpeaking
        };
        self.temp_silence_cnt = 0;
        if record {
            self.last_speech_cnt = self.speech_cnt;
        }
        self.speech_cnt = 0;
    }

    /// Feeds one frame and returns the new state.
    pub fn update(&mut self, params: &Params, level: ProbLevel) -> (st: SpeechState)
        requires
            old(self)@.step_fits(level),
        ensures
            final(self)@ == old(self)@.step(level),
            st == final(self)@.state,
            old(self)@.inv() ==> final(self)@.inv(),
    {
        let is_speech = level.is_speech;
        let is_low_prob = level.is_low_prob;
        proof {
            if self@.inv() {
                lemma_step_keeps_inv(self@, level);
            }
        }
        match self.speech_state {
            SpeechState::Silent => {
                if is_speech {
                    self.speech_cnt += 1;
                    if self.speech_cnt >= self.pre_speech_threshold_cnt {
                        self.speech_state = SpeechState::StartSpeaking;
                    }
                } else {
                    self.speech_cnt = 0;
                }
            },
            SpeechState::StartSpeaking => {
                if is_low_prob {
                    self.speech_cnt += 1;
                    if self.speech_cnt >= self.speech_threshold_cnt + self.pre_speech_threshold_cnt {
                        self.speech_state = SpeechState::Speaking;
                    }
                } else {
                    self.speech_state = SpeechState::Silent;
                    self.finish_round(false);
                }
            },
            SpeechState::Speaking => {
                if is_low_prob {
                    self.speech_cnt += 1;
                    if self.speech_cnt > self.max_speech_cnt {
                        self.finish_round(true);
                    }
                } else {
                    self.speech_state = SpeechState::TempSilence;
                    self.temp_silence_cnt += 1;
                }
            },
            SpeechState::TempSilence => {
                if is_low_prob {
                    self.speech_state = SpeechState::Speaking;
                    self.speech_cnt += 1;
                    self.temp_silence_cnt = 0;
                } else {
                    self.temp_silence_cnt += 1;
                    if self.temp_silence_cnt >= self.silence_threshold_cnt {
                        self.finish_round(true);
                    }
                }
            },
            SpeechState::StopSpeaking => {
                self.speech_state = SpeechState::Silent;
                if is_speech {
                    self.speech_cnt += 1;
                }
            },
        }
        assert(self@ =~= old(self)@.step(level));
        self.speech_state
    }

    /// The length of the last recorded speech, in frames.
    pub fn get_last_speech_frames(&self) -> (n: u32)
        ensures
            n == self@.last_speech_cnt,
    {
        self.last_speech_cnt
    }

    /// The length of the last recorded speech in samples.
    pub fn get_last_speech_samples(&self) -> (n: u64)
        ensures
            n == self@.last_speech_samples(),
    {
        proof {
            lemma_u32_product_fits(self.last_speech_cnt, self.sample_per_frame);
        }
        self.last_speech_cnt as u64 * self.sample_per_frame as u64
    }

    /// The length of the last recorded speech in milliseconds at the
    /// stream's sample rate, rounded to the nearest millisecond (a half
    /// rounds up); 0 when the sample rate is 0.
    pub fn get_last_speech_ms(&self) -> (ms: u128)
        ensures
            ms == self@.last_speech_ms(),
    {
        let samples = self.get_last_speech_samples();
        if self.sample_rate == 0 {
            return 0;
        }
        let sr = self.sample_rate as u128;
        let scaled = samples as u128 * 1000;
        assert(scaled + sr / 2 <= u128::MAX) by {
            assert(samples as u128 * 1000 <= (u64::MAX as int) * 1000) by (nonlinear_arith)
                requires
                    samples <= u64::MAX,
            ;
        }
        (scaled + sr / 2) / sr
    }

    /// No counter overflows on a frame with this verdict.
    pub fn can_take(&self, level: ProbLevel) -> (b: bool)
        ensures
            b == self@.step_fits(level),
    {
        let speech_room = self.speech_cnt < u32::MAX;
        let temp_room = self.temp_silence_cnt < u32::MAX;
        match self.speech_state {
            SpeechState::Silent => !level.is_speech || speech_room,
            SpeechState::StartSpeaking => !level.is_low_prob || (speech_room
                && self.speech_threshold_cnt as u64 + self.pre_speech_threshold_cnt as u64
                <= u32::MAX as u64),
            SpeechState::Speaking => if level.is_low_prob {
                speech_room
            } else {
                temp_room
            },
            SpeechState::TempSilence => if level.is_low_prob {
                speech_room
            } else {
                temp_room
            },
            SpeechState::StopSpeaking => !level.is_speech || speech_room,
        }
    }

    /// The current state.
    pub fn get_state(&self) -> (st: SpeechState)
        ensures
            st == self@.state,
    {
        self.speech_state
    }

    /// The speeches recorded so far.
    pub fn speeches(&self) -> (v: &Vec<TimeStamp>)
        ensures
            v@ == self@.speeches,
    {
        &self.speeches
    }
}

proof fn lemma_u32_product_fits(a: u32, b: u32)
    ensures
        a * b <= (u32::MAX as int) * (u32::MAX as int),
        (u32::MAX as int) * (u32::MAX as int) + 8 <= u64::MAX,
{
    assert(a * b <= (u32::MAX as int) * (u32::MAX as int)) by (nonlinear_arith);
}

/// Every transition keeps the machine's invariant.
pub proof fn lemma_step_keeps_inv(s: StreamView, lv: ProbLevel)
    requires
        s.inv(),
        s.step_fits(lv),
    ensures
        s.step(lv).inv(),
{
}

/// The machine's invariant holds of a new stream and after any frames.
pub proof fn lemma_run_keeps_inv(params: Params, frames: Seq<ProbLevel>)
    requires
        forall|i: int| 0 <= i < frames.len() ==>
            #[trigger] StreamView::initial(params).run(frames.take(i)).step_fits(frames[i]),
    ensures
        StreamView::initial(params).run(frames).inv(),
    decreases frames.len(),
{
    let s0 = StreamView::initial(params);
    if frames.len() > 0 {
        let n = frames.len() - 1;
        let prefix = frames.drop_last();
        assert forall|i: int| 0 <= i < prefix.len() implies
            #[trigger] s0.run(prefix.take(i)).step_fits(prefix[i]) by {
            assert(prefix.take(i) =~= frames.take(i));
            assert(s0.run(frames.take(i)).step_fits(frames[i]));
        }
        lemma_run_keeps_inv(params, prefix);
        assert(frames.take(n) =~= prefix);
        assert(s0.run(frames.take(n)).step_fits(frames[n]));
        lemma_step_keeps_inv(s0.run(prefix), frames.last());
    }
}

/// At a whole number of samples per millisecond, with frames of `frame_ms`
/// milliseconds, the last speech lasted its frame count times `frame_ms`.
pub proof fn lemma_last_speech_ms_in_frames(s: StreamView, frame_ms: nat)
    requires
        s.sample_rate > 0,
        s.sample_rate % 1000 == 0,
        s.sample_per_frame == frame_ms * (s.sample_rate / 1000),
    ensures
        s.last_speech_ms() == s.last_speech_cnt * frame_ms,
{
    let sr = s.sample_rate as int;
    let k = sr / 1000;
    let q = s.last_speech_cnt * frame_ms;
    assert(sr == 1000 * k);
    assert(s.last_speech_samples() * 1000 == q * sr) by (nonlinear_arith)
        requires
            s.last_speech_samples() == s.last_speech_cnt * s.sample_per_frame,
            s.sample_per_frame == frame_ms * k,
            sr == 1000 * k,
            q == s.last_speech_cnt * frame_ms,
    ;
    assert((q * sr + sr / 2) / sr == q) by (nonlinear_arith)
        requires
            sr > 0,
            0 <= sr / 2 < sr,
    ;
}

/// The recorded speech length never steers the machine: two states that
/// differ only in it take the same transitions, and differ afterwards at
/// most in it.
pub proof fn lemma_step_ignores_last(s: StreamView, n: u32, lv: ProbLevel)
    ensures
        s.with_last(n).step(lv).with_last(s.step(lv).last_speech_cnt) == s.step(lv),
{
    assert(s.with_last(n).step(lv).with_last(s.step(lv).last_speech_cnt) =~= s.step(lv));
}

/// Over any frames, two states that differ only in the recorded speech
/// length go through the same states, and differ at most in it.
pub proof fn lemma_run_ignores_last(s: StreamView, n: u32, frames: Seq<ProbLevel>)
    ensures
        s.with_last(n).run(frames).with_last(s.run(frames).last_speech_cnt) == s.run(frames),
    decreases frames.len(),
{
    if frames.len() > 0 {
        let prefix = frames.drop_last();
        lemma_run_ignores_last(s, n, prefix);
        let a = s.with_last(n).run(prefix);
        let b = s.run(prefix);
        assert(a == b.with_last(a.last_speech_cnt)) by {
            assert(a =~= b.with_last(a.last_speech_cnt));
        }
        lemma_step_ignores_last(b, a.last_speech_cnt, frames.last());
    }
}

/// A discarded round leaves no trace: after `finish(false)` a stream goes
/// through the same states, on any frames, as a new stream with its
/// settings; only the recorded speech length can differ.
pub proof fn lemma_discarded_round_is_fresh(params: Params, s: StreamView)
    requires
        s.same_config(StreamView::initial(params)),
    ensures
        forall|frames: Seq<ProbLevel>|
            #[trigger] s.finish(false).run(frames).with_last(
                StreamView::initial(params).run(frames).last_speech_cnt,
            ) == StreamView::initial(params).run(frames),
{
    let fresh = StreamView::initial(params);
    assert(s.finish(false) == fresh.with_last(s.last_speech_cnt)) by {
        assert(s.finish(false) =~= fresh.with_last(s.last_speech_cnt));
    }
    assert forall|frames: Seq<ProbLevel>|
        #[trigger] s.finish(false).run(frames).with_last(fresh.run(frames).last_speech_cnt)
            == fresh.run(frames) by {
        lemma_run_ignores_last(fresh, s.last_speech_cnt, frames);
    }
}

/// The recorded speech length changes only when a round ends: a frame that
/// does not end in `StopSpeaking` keeps it.
pub proof fn lemma_last_changes_only_at_stop(s: StreamView, lv: ProbLevel)
    ensures
        s.step(lv).state != SpeechState::StopSpeaking ==> s.step(lv).last_speech_cnt
            == s.last_speech_cnt,
{
}

/// Over frames after none of which the stream is in `StopSpeaking`, the
/// recorded speech length stays what it was (0 for a new stream).
pub proof fn lemma_last_kept_without_stop(s: StreamView, frames: Seq<ProbLevel>)
    requires
        forall|i: int|
            0 < i <= frames.len() ==> #[trigger] s.run(frames.take(i)).state
                != SpeechState::StopSpeaking,
    ensures
        s.run(frames).last_speech_cnt == s.last_speech_cnt,
    decreases frames.len(),
{
    if frames.len() > 0 {
        let prefix = frames.drop_last();
        assert forall|i: int| 0 < i <= prefix.len() implies #[trigger] s.run(prefix.take(i)).state
            != SpeechState::StopSpeaking by {
            assert(prefix.take(i) =~= frames.take(i));
        }
        lemma_last_kept_without_stop(s, prefix);
        assert(frames.take(frames.len() as int) =~= frames);
        assert(s.run(frames.take(frames.len() as int)).state != SpeechState::StopSpeaking);
        lemma_last_changes_only_at_stop(s.run(prefix), frames.last());
    }
}

/// Frames change only the machine's state and counters, never its settings
/// nor the recorded speeches.
pub proof fn lemma_run_keeps_config(s: StreamView, frames: Seq<ProbLevel>)
    ensures
        s.run(frames).same_config(s),
    decreases frames.len(),
{
    if frames.len() > 0 {
        lemma_run_keeps_config(s, frames.drop_last());
    }
}

/// Speech onset: from silence with nothing counted, consecutive speech
/// frames keep the stream `Silent` until `pre_speech_threshold_cnt` of them
/// were seen, then `StartSpeaking` until `pre + speech_threshold_cnt` were
/// seen, and `Speaking` at that frame.
pub proof fn lemma_onset(s: StreamView, frames: Seq<ProbLevel>)
    requires
        s.inv(),
        s.state == SpeechState::Silent,
        s.speech_cnt == 0,
        s.pre_speech_threshold_cnt >= 1,
        s.speech_threshold_cnt >= 1,
        s.pre_speech_threshold_cnt + s.speech_threshold_cnt <= u32::MAX,
        frames.len() <= s.pre_speech_threshold_cnt + s.speech_threshold_cnt,
        forall|i: int| 0 <= i < frames.len() ==> (#[trigger] frames[i]).is_speech && frames[i].is_low_prob,
    ensures
        ({
            let t = s.run(frames);
            let n = frames.len();
            &&& t.speech_cnt == n
            &&& t.temp_silence_cnt == 0
            &&& t.last_speech_cnt == s.last_speech_cnt
            &&& (n < s.pre_speech_threshold_cnt ==> t.state == SpeechState::Silent)
            &&& (s.pre_speech_threshold_cnt <= n < s.pre_speech_threshold_cnt + s.speech_threshold_cnt
                ==> t.state == SpeechState::StartSpeaking)
            &&& (n == s.pre_speech_threshold_cnt + s.speech_threshold_cnt ==> t.state == SpeechState::Speaking)
        }),
    decreases frames.len(),
{
    if frames.len() > 0 {
        let prefix = frames.drop_last();
        assert forall|i: int| 0 <= i < prefix.len() implies
            (#[trigger] prefix[i]).is_speech && prefix[i].is_low_prob by {
            assert(prefix[i] == frames[i]);
        }
        lemma_onset(s, prefix);
        lemma_run_keeps_config(s, prefix);
        assert(frames.last() == frames[frames.len() - 1]);
        assert(s.run(frames) == s.run(prefix).step(frames.last()));
    }
}

/// End of speech: once speaking, consecutive frames below the continuation
/// threshold keep the stream in `TempSilence`, counting them, until
/// `silence_threshold_cnt` of them were seen; that frame ends the utterance
/// (`StopSpeaking`) and records its length in frames.
pub proof fn lemma_hangover(s: StreamView, frames: Seq<ProbLevel>)
    requires
        s.inv(),
        s.state == SpeechState::Speaking,
        s.silence_threshold_cnt >= 2,
        1 <= frames.len() <= s.silence_threshold_cnt,
        forall|i: int| 0 <= i < frames.len() ==> !(#[trigger] frames[i]).is_low_prob,
    ensures
        ({
            let t = s.run(frames);
            let n = frames.len();
            &&& (n < s.silence_threshold_cnt ==> {
                &&& t.state == SpeechState::TempSilence
                &&& t.temp_silence_cnt == n
                &&& t.speech_cnt == s.speech_cnt
            })
            &&& (n == s.silence_threshold_cnt ==> {
                &&& t.state == SpeechState::StopSpeaking
                &&& t.last_speech_cnt == s.speech_cnt
                &&& t.speech_cnt == 0
                &&& t.temp_silence_cnt == 0
            })
        }),
    decreases frames.len(),
{
    let prefix = frames.drop_last();
    assert(frames.last() == frames[frames.len() - 1]);
    if frames.len() == 1 {
        assert(prefix.len() == 0);
        assert(s.run(prefix) == s);
    } else {
        assert forall|i: int| 0 <= i < prefix.len() implies !(#[trigger] prefix[i]).is_low_prob by {
            assert(prefix[i] == frames[i]);
        }
        lemma_hangover(s, prefix);
    }
    lemma_run_keeps_config(s, prefix);
    assert(s.run(frames) == s.run(prefix).step(frames.last()));
}

/// `StopSpeaking` lasts one frame: whatever comes next, the stream is
/// `Silent` again, counting the frame if it is speech.
pub proof fn lemma_stop_lasts_one_frame(s: StreamView, lv: ProbLevel)
    requires
        s.inv(),
        s.state == SpeechState::StopSpeaking,
    ensures
        s.step(lv).state == SpeechState::Silent,
        s.step(lv).speech_cnt == (if lv.is_speech { 1int } else { 0int }),
        s.step(lv).last_speech_cnt == s.last_speech_cnt,
{
}

/// A false start: a frame below the continuation threshold while speech is
/// only suspected returns to `Silent`, forgets the count and records nothing.
pub proof fn lemma_false_trigger(s: StreamView, lv: ProbLevel)
    requires
        s.state == SpeechState::StartSpeaking,
        !lv.is_low_prob,
    ensures
        s.step(lv).state == SpeechState::Silent,
        s.step(lv).speech_cnt == 0,
        s.step(lv).last_speech_cnt == s.last_speech_cnt,
{
}

/// A pause ends by speech: a frame above the continuation threshold during
/// `TempSilence` resumes `Speaking` and forgets the pause.
pub proof fn lemma_resume(s: StreamView, lv: ProbLevel)
    requires
        s.state == SpeechState::TempSilence,
        lv.is_low_prob,
        s.speech_cnt < u32::MAX,
    ensures
        s.step(lv).state == SpeechState::Speaking,
        s.step(lv).temp_silence_cnt == 0,
        s.step(lv).speech_cnt == s.speech_cnt + 1,
{
}

/// Frames fed one batch after another give the state of feeding them all.
pub proof fn lemma_run_concat(s: StreamView, a: Seq<ProbLevel>, b: Seq<ProbLevel>)
    ensures
        s.run(a + b) == s.run(a).run(b),
    decreases b.len(),
{
    if b.len() == 0 {
        assert(a + b =~= a);
    } else {
        let ab = a + b;
        assert(ab.drop_last() =~= a + b.drop_last());
        assert(ab.last() == b.last());
        lemma_run_concat(s, a, b.drop_last());
    }
}

/// While silent, a frame that is not above the speech threshold forgets the
/// onset count, whether or not it is above the continuation threshold, and
/// the stream stays silent.
pub proof fn lemma_quiet_frame_resets_onset(s: StreamView, lv: ProbLevel)
    requires
        s.state == SpeechState::Silent,
        !lv.is_speech,
    ensures
        s.step(lv).state == SpeechState::Silent,
        s.step(lv).speech_cnt == 0,
        s.step(lv).last_speech_cnt == s.last_speech_cnt,
        s.step(lv).same_config(s),
{
}

/// From silence with nothing counted, fewer speech frames than
/// `pre_speech_threshold_cnt` leave the stream silent, counting them.
pub proof fn lemma_silent_counts_speech(s: StreamView, frames: Seq<ProbLevel>)
    requires
        s.state == SpeechState::Silent,
        s.speech_cnt == 0,
        frames.len() < s.pre_speech_threshold_cnt,
        forall|i: int| 0 <= i < frames.len() ==> (#[trigger] frames[i]).is_speech,
    ensures
        s.run(frames).state == SpeechState::Silent,
        s.run(frames).speech_cnt == frames.len(),
        s.run(frames).same_config(s),
    decreases frames.len(),
{
    if frames.len() > 0 {
        let prefix = frames.drop_last();
        assert forall|i: int| 0 <= i < prefix.len() implies (#[trigger] prefix[i]).is_speech by {
            assert(prefix[i] == frames[i]);
        }
        lemma_silent_counts_speech(s, prefix);
        assert(frames.last() == frames[frames.len() - 1]);
    }
}

/// Onset needs consecutive speech frames: while silent, after a frame that is
/// not above the speech threshold, fewer than `pre_speech_threshold_cnt`
/// speech frames leave the stream silent, however many speech frames came
/// before.
pub proof fn lemma_onset_needs_consecutive_frames(s: StreamView, lv: ProbLevel, frames: Seq<ProbLevel>)
    requires
        s.state == SpeechState::Silent,
        !lv.is_speech,
        frames.len() < s.pre_speech_threshold_cnt,
        forall|i: int| 0 <= i < frames.len() ==> (#[trigger] frames[i]).is_speech,
    ensures
        s.run(seq![lv] + frames).state == SpeechState::Silent,
        s.run(seq![lv] + frames).speech_cnt == frames.len(),
{
    lemma_quiet_frame_resets_onset(s, lv);
    lemma_run_concat(s, seq![lv], frames);
    let one = seq![lv];
    assert(one.drop_last() =~= Seq::<ProbLevel>::empty());
    assert(one.last() == lv);
    assert(s.run(one.drop_last()) == s);
    assert(s.run(one) == s.step(lv));
    lemma_silent_counts_speech(s.step(lv), frames);
}

/// While speaking, every frame above the continuation threshold adds one to
/// the speech count and keeps the stream speaking, whether or not it is above
/// the speech threshold.
pub proof fn lemma_speaking_counts_continuation(s: StreamView, frames: Seq<ProbLevel>)
    requires
        s.inv(),
        s.state == SpeechState::Speaking,
        s.speech_cnt + frames.len() <= u32::MAX,
        forall|i: int| 0 <= i < frames.len() ==> (#[trigger] frames[i]).is_low_prob,
    ensures
        s.run(frames).state == SpeechState::Speaking,
        s.run(frames).speech_cnt == s.speech_cnt + frames.len(),
        s.run(frames).last_speech_cnt == s.last_speech_cnt,
        s.run(frames).inv(),
        s.run(frames).same_config(s),
    decreases frames.len(),
{
    if frames.len() > 0 {
        let prefix = frames.drop_last();
        assert forall|i: int| 0 <= i < prefix.len() implies (#[trigger] prefix[i]).is_low_prob by {
            assert(prefix[i] == frames[i]);
        }
        lemma_speaking_counts_continuation(s, prefix);
        assert(frames.last() == frames[frames.len() - 1]);
        lemma_step_keeps_inv(s.run(prefix), frames.last());
    }
}

/// The length of an utterance: from speaking with count `c`, `k` frames
/// above the continuation threshold and then `silence_threshold_cnt` frames
/// below it end the utterance with a recorded length of `c + k` frames.
pub proof fn lemma_utterance_length(s: StreamView, talk: Seq<ProbLevel>, quiet: Seq<ProbLevel>)
    requires
        s.inv(),
        s.state == SpeechState::Speaking,
        s.silence_threshold_cnt >= 2,
        s.speech_cnt + talk.len() <= u32::MAX,
        forall|i: int| 0 <= i < talk.len() ==> (#[trigger] talk[i]).is_low_prob,
        quiet.len() == s.silence_threshold_cnt,
        forall|i: int| 0 <= i < quiet.len() ==> !(#[trigger] quiet[i]).is_low_prob,
    ensures
        s.run(talk + quiet).state == SpeechState::StopSpeaking,
        s.run(talk + quiet).last_speech_cnt == s.speech_cnt + talk.len(),
{
    lemma_speaking_counts_continuation(s, talk);
    lemma_run_concat(s, talk, quiet);
    lemma_hangover(s.run(talk), quiet);
}

/// A new stream follows its settings: with `pre` onset frames, `confirm`
/// confirmation frames and silence of `silence_stop_frame_cnt` frames, the
/// stream is silent before `pre` speech frames, suspects speech from the
/// `pre`-th, speaks at the `(pre + confirm)`-th; then quiet frames keep it in
/// a pause until the `silence_stop_frame_cnt`-th, which ends the utterance
/// with a recorded length of `pre + confirm` frames.
pub proof fn lemma_new_stream_follows_settings(
    params: Params,
    talk: Seq<ProbLevel>,
    quiet: Seq<ProbLevel>,
)
    requires
        1 <= params.pre_speech_threshold_frame_cnt,
        1 <= params.speech_threshold_frame_cnt,
        params.pre_speech_threshold_frame_cnt + params.speech_threshold_frame_cnt <= u32::MAX,
        2 <= params.silence_stop_frame_cnt <= u32::MAX,
        talk.len() == params.pre_speech_threshold_frame_cnt + params.speech_threshold_frame_cnt,
        forall|i: int| 0 <= i < talk.len() ==> (#[trigger] talk[i]).is_speech && talk[i].is_low_prob,
        1 <= quiet.len() <= params.silence_stop_frame_cnt,
        forall|i: int| 0 <= i < quiet.len() ==> !(#[trigger] quiet[i]).is_low_prob,
    ensures
        forall|n: int| 0 <= n <= talk.len() ==> {
            let t = #[trigger] StreamView::initial(params).run(talk.take(n));
            &&& (n < params.pre_speech_threshold_frame_cnt ==> t.state == SpeechState::Silent)
            &&& (params.pre_speech_threshold_frame_cnt <= n < talk.len() ==> t.state
                == SpeechState::StartSpeaking)
            &&& (n == talk.len() ==> t.state == SpeechState::Speaking)
        },
        quiet.len() < params.silence_stop_frame_cnt ==> StreamView::initial(params).run(
            talk + quiet,
        ).state == SpeechState::TempSilence,
        quiet.len() == params.silence_stop_frame_cnt ==> {
            &&& StreamView::initial(params).run(talk + quiet).state == SpeechState::StopSpeaking
            &&& StreamView::initial(params).run(talk + quiet).last_speech_cnt == talk.len()
        },
{
    let s0 = StreamView::initial(params);
    assert(s0.inv());
    assert forall|n: int| 0 <= n <= talk.len() implies {
        let t = #[trigger] s0.run(talk.take(n));
        &&& (n < params.pre_speech_threshold_frame_cnt ==> t.state == SpeechState::Silent)
        &&& (params.pre_speech_threshold_frame_cnt <= n < talk.len() ==> t.state
            == SpeechState::StartSpeaking)
        &&& (n == talk.len() ==> t.state == SpeechState::Speaking)
    } by {
        let prefix = talk.take(n);
        assert forall|i: int| 0 <= i < prefix.len() implies (#[trigger] prefix[i]).is_speech
            && prefix[i].is_low_prob by {
            assert(prefix[i] == talk[i]);
        }
        lemma_onset(s0, prefix);
    }
    assert(talk.take(talk.len() as int) =~= talk);
    assert forall|i: int| 0 <= i < talk.len() implies (#[trigger] talk[i]).is_speech
        && talk[i].is_low_prob by {}
    lemma_onset(s0, talk);
    let t = s0.run(talk);
    lemma_run_keeps_config(s0, talk);
    lemma_run_concat(s0, talk, quiet);
    lemma_hangover(t, quiet);
}

} // verus!
