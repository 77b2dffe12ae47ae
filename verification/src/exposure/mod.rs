//! Detector streams registered by handle, as the foreign-language bindings
//! see them: create a stream, feed it frames, drop it.
use std::collections::HashMap;

use vstd::prelude::*;

use crate::ort_vad::speech_state::{ProbLevel, StreamView};
use crate::ort_vad::utils::VadParams;
use crate::ort_vad::vad_iter::{Params, VadIter, VadIterView};

verus! {

broadcast use vstd::std_specs::hash::group_hash_axioms;

/// The answer to one processed frame.
#[derive(Debug)]
pub struct VadRes {
    /// The number of recorded speeches, or -1 when the frame was not processed.
    pub talk_state: i32,
    /// Empty, or what went wrong.
    pub msg: String,
}

/// The message for a handle that names no stream.
pub open spec fn invalid_handle_msg() -> Seq<char> {
    "Invalid VadIter handle"@
}

/// A stream's state after a frame with the model's verdict `out`: one step
/// on a verdict, unchanged on an error.
pub open spec fn frame_stream(stream: StreamView, out: Result<ProbLevel, String>) -> StreamView {
    match out {
        Ok(lv) => stream.step(lv),
        Err(_) => stream,
    }
}

/// The answer (`talk_state`, message) to a frame with the model's verdict
/// `out`: the number of recorded speeches and no message on a verdict, -1 and
/// the error's text on an error.
pub open spec fn frame_answer(stream: StreamView, out: Result<ProbLevel, String>) -> (int, Seq<char>) {
    match out {
        Ok(lv) => (stream.step(lv).speeches.len() as i32 as int, Seq::<char>::empty()),
        Err(e) => (-1, e@),
    }
}

impl VadRes {
    /// The single number handed to the Java side: `talk_state` when the
    /// frame was processed without error, -1 otherwise.
    pub fn jni_result(&self) -> (r: i64)
        ensures
            r == (if self.msg@.len() == 0 { self.talk_state as int } else { -1 }),
    {
        if self.msg.as_str().is_empty() {
            self.talk_state as i64
        } else {
            -1
        }
    }
}

/// Detector streams by handle. Handles are issued counting up from 1 and
/// never reused.
pub struct VadRegistry<M> {
    iters: HashMap<usize, VadIter<M>>,
    next_handle: usize,
}

impl<M> VadRegistry<M> {
    /// The registered streams.
    pub closed spec fn streams(&self) -> Map<usize, VadIterView<M>> {
        self.iters@.map_values(|it: VadIter<M>| it@)
    }

    /// The last handle issued (0 before the first).
    pub closed spec fn last_handle(&self) -> nat {
        self.next_handle as nat
    }

    /// Every registered handle was issued, and every stream is in a state
    /// its machine can reach.
    pub open spec fn wf(&self) -> bool {
        forall|h: usize| #[trigger] self.streams().contains_key(h) ==> {
            &&& 1 <= h <= self.last_handle()
            &&& self.streams()[h].stream.inv()
        }
    }

    /// A registry without streams.
    pub fn new() -> (r: Self)
        ensures
            r.streams() == Map::<usize, VadIterView<M>>::empty(),
            r.last_handle() == 0,
            r.wf(),
    {
        let r = VadRegistry { iters: HashMap::new(), next_handle: 0 };
        assert(r.streams() =~= Map::<usize, VadIterView<M>>::empty());
        r
    }

    /// Whether `handle` names a stream.
    pub fn contains(&self, handle: usize) -> (b: bool)
        ensures
            b == self.streams().contains_key(handle),
    {
        self.iters.contains_key(&handle)
    }

    /// Whether a frame with verdict `level` can be fed to `handle` without a
    /// counter overflow (true also when `handle` names no stream).
    pub fn ready_for(&self, handle: usize, level: ProbLevel) -> (b: bool)
        ensures
            b == (self.streams().contains_key(handle) ==> self.streams()[handle].stream.step_fits(level)),
    {
        match self.iters.get(&handle) {
            Some(it) => it.stream_state().can_take(level),
            None => true,
        }
    }

    /// Whether another handle can be issued.
    pub fn can_register(&self) -> (b: bool)
        ensures
            b == (self.last_handle() < usize::MAX),
    {
        self.next_handle < usize::MAX
    }
}

/// Registers a new stream over `model` and returns its handle, one more
/// than the last handle issued.
pub fn init_vad_iter<M>(registry: &mut VadRegistry<M>, model: M, params: VadParams) -> (handle: usize)
    requires
        old(registry).wf(),
        params.valid(),
        old(registry).last_handle() < usize::MAX,
    ensures
        final(registry).wf(),
        handle == old(registry).last_handle() + 1,
        final(registry).last_handle() == handle,
        !old(registry).streams().contains_key(handle),
        final(registry).streams().remove(handle) == old(registry).streams().remove(handle),
        final(registry).streams() == old(registry).streams().insert(
            handle,
            (VadIterView {
                model: model,
                params: Params::of(params),
                stream: StreamView::initial(Params::of(params)),
            }),
        ),
{
    let vad_iter = VadIter::new(model, params);
    registry.next_handle = registry.next_handle + 1;
    let handle = registry.next_handle;
    let ghost before = old(registry).iters@;
    assert(!before.contains_key(handle)) by {
        if before.contains_key(handle) {
            assert(old(registry).streams().contains_key(handle));
        }
    }
    registry.iters.insert(handle, vad_iter);
    assert(registry.streams() =~= old(registry).streams().insert(
        handle,
        VadIterView {
            model: model,
            params: Params::of(params),
            stream: StreamView::initial(Params::of(params)),
        },
    ));
    assert(registry.streams().remove(handle) =~= old(registry).streams().remove(handle));
    handle
}

/// Feeds one frame of samples to the stream named by `handle`: its model
/// classifies the frame and its state machine takes the verdict.
pub fn process_vad_iter<M, F: FnOnce(&mut M, &[i16]) -> Result<ProbLevel, String>>(
    registry: &mut VadRegistry<M>,
    handle: usize,
    samples: &[i16],
    detect: F,
) -> (res: VadRes)
    requires
        old(registry).wf(),
        forall|m: &mut M| #[trigger] call_requires(detect, (m, samples)),
        forall|m: &mut M, out: Result<ProbLevel, String>|
            #[trigger] call_ensures(detect, (m, samples), out) ==> (old(registry).streams().contains_key(
                handle,
            ) ==> old(registry).streams()[handle].stream.fits_outcome(out)),
    ensures
        final(registry).wf(),
        final(registry).last_handle() == old(registry).last_handle(),
        final(registry).streams().dom() == old(registry).streams().dom(),
        final(registry).streams().remove(handle) == old(registry).streams().remove(handle),
        !old(registry).streams().contains_key(handle) ==> {
            &&& res.talk_state == -1
            &&& res.msg@ == invalid_handle_msg()
            &&& final(registry).streams() == old(registry).streams()
        },
        old(registry).streams().contains_key(handle) ==> {
            let before = old(registry).streams()[handle];
            let after = final(registry).streams()[handle];
            &&& after.params == before.params
            &&& exists|m: &mut M, out: Result<ProbLevel, String>|
                {
                    &&& *m == before.model
                    &&& *final(m) == after.model
                    &&& call_ensures(detect, (m, samples), out)
                    &&& after.stream == frame_stream(before.stream, out)
                    &&& (res.talk_state as int, res.msg@) == frame_answer(before.stream, out)
                }
        },
{
    match registry.iters.remove(&handle) {
        Some(mut vad_iter) => {
            assert(old(registry).streams()[handle] == vad_iter@);
            let r = vad_iter.process(samples, detect);
            let res = match r {
                Ok(_) => VadRes { talk_state: vad_iter.speeches().len() as i32, msg: String::new() },
                Err(e) => VadRes { talk_state: -1, msg: e },
            };
            let ghost after = vad_iter@;
            registry.iters.insert(handle, vad_iter);
            assert(registry.streams() =~= old(registry).streams().insert(handle, after));
            assert(registry.streams().remove(handle) =~= old(registry).streams().remove(handle));
            res
        },
        None => {
            assert(registry.streams() =~= old(registry).streams());
            VadRes { talk_state: -1, msg: "Invalid VadIter handle".to_owned() }
        },
    }
}

/// Handles are never reused: the next handle to be issued names no stream.
pub proof fn lemma_next_handle_is_fresh<M>(r: VadRegistry<M>)
    requires
        r.wf(),
    ensures
        forall|h: usize| #[trigger] r.streams().contains_key(h) ==> h < r.last_handle() + 1,
{
}

/// Streams are independent: a call that leaves every stream but `other` as
/// it was (processing, dropping or registering `other`) leaves the stream of
/// any other live handle `h` exactly as it was, model included. With the
/// answer to a frame a function of the stream and the model's verdict
/// (`frame_answer`), the frames fed to `h` are answered alike whatever
/// happens to other handles, as long as its model gives the same verdicts.
pub proof fn lemma_other_handles_untouched<M>(
    before: VadRegistry<M>,
    after: VadRegistry<M>,
    h: usize,
    other: usize,
)
    requires
        before.streams().contains_key(h),
        h != other,
        after.streams().remove(other) == before.streams().remove(other),
    ensures
        after.streams().contains_key(h),
        after.streams()[h] == before.streams()[h],
{
    assert(before.streams().remove(other).contains_key(h));
    assert(after.streams().remove(other)[h] == after.streams()[h]);
}

/// A frame's answer and the stream's next state depend only on the stream
/// and on what the model returns. Two registries with equal streams at `h`
/// give equal answers to a frame with equal model results, and their streams
/// at `h` stay equal. Calls on other handles keep a stream as it was
/// (`lemma_other_handles_untouched`).
pub proof fn lemma_same_stream_same_answer<M>(
    r1: VadRegistry<M>,
    r2: VadRegistry<M>,
    h: usize,
    out: Result<ProbLevel, String>,
)
    requires
        r1.streams().contains_key(h),
        r2.streams().contains_key(h),
        r1.streams()[h].stream == r2.streams()[h].stream,
    ensures
        frame_answer(r1.streams()[h].stream, out) == frame_answer(r2.streams()[h].stream, out),
        frame_stream(r1.streams()[h].stream, out) == frame_stream(r2.streams()[h].stream, out),
{
}

/// Registering a stream and then dropping it leaves the other streams as
/// they were.
pub proof fn lemma_init_then_cleanup<M>(
    r0: VadRegistry<M>,
    r1: VadRegistry<M>,
    r2: VadRegistry<M>,
    handle: usize,
    added: VadIterView<M>,
)
    requires
        !r0.streams().contains_key(handle),
        r1.streams() == r0.streams().insert(handle, added),
        r2.streams() == r1.streams().remove(handle),
    ensures
        r2.streams() == r0.streams(),
{
    assert(r2.streams() =~= r0.streams());
}

/// A frame that the model classifies reports no recorded speech: streams
/// never record speeches, so `talk_state` is 0.
pub proof fn lemma_processed_frame_reports_zero<M>(r: VadRegistry<M>, handle: usize)
    requires
        r.wf(),
        r.streams().contains_key(handle),
    ensures
        r.streams()[handle].stream.speeches.len() as i32 == 0,
{
}

/// Drops the stream named by `handle`, if there is one.
pub fn cleanup_vad_iter<M>(registry: &mut VadRegistry<M>, handle: usize)
    requires
        old(registry).wf(),
    ensures
        final(registry).wf(),
        final(registry).last_handle() == old(registry).last_handle(),
        final(registry).streams() == old(registry).streams().remove(handle),
        final(registry).streams().remove(handle) == old(registry).streams().remove(handle),
{
    registry.iters.remove(&handle);
    assert(registry.streams() =~= old(registry).streams().remove(handle));
    assert(registry.streams().remove(handle) =~= old(registry).streams().remove(handle));
}

/// A frame the model classifies is answered with the number of speeches the
/// stream has recorded after the step and no message; streams record none,
/// so the answer is 0, whatever the counters or the last speech length.
pub proof fn lemma_classified_frame_answers_zero<M>(r: VadRegistry<M>, handle: usize, lv: ProbLevel)
    requires
        r.wf(),
        r.streams().contains_key(handle),
    ensures
        frame_answer(r.streams()[handle].stream, Ok(lv)) == (0int, Seq::<char>::empty()),
        frame_answer(r.streams()[handle].stream, Ok(lv)).0 == r.streams()[handle].stream.step(
            lv,
        ).speeches.len(),
{
    let st = r.streams()[handle].stream;
    assert(st.step(lv).speeches == st.speeches);
}

} // verus!
