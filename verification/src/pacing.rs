//! Frame pacing on Android: the display's vsync callback marks a frame
//! ready, the render loop takes it, and exactly one callback is kept
//! registered while pacing runs.

use vstd::prelude::*;

verus! {

/// The pacing state shared by the vsync callback and the render loop.
#[derive(Debug)]
pub struct FramePacer {
    running: bool,
    frame_ready: bool,
    frame_time_ns: i64,
    posted: bool,
}

/// The pacing state as plain values: running, a frame ready, the time of
/// the last vsync, a callback registered.
pub struct PacerView {
    pub running: bool,
    pub frame_ready: bool,
    pub frame_time_ns: i64,
    pub posted: bool,
}

impl FramePacer {
    pub closed spec fn view(&self) -> PacerView {
        PacerView {
            running: self.running,
            frame_ready: self.frame_ready,
            frame_time_ns: self.frame_time_ns,
            posted: self.posted,
        }
    }
}

impl Default for FramePacer {
    /// Pacing stopped, no frame ready, no callback registered, time zero.
    fn default() -> (p: FramePacer)
        ensures
            p.view() == (PacerView { running: false, frame_ready: false, frame_time_ns: 0, posted: false }),
    {
        FramePacer { running: false, frame_ready: false, frame_time_ns: 0, posted: false }
    }
}

/// Asking for the next vsync callback: only while running and when none
/// is registered; the answer says whether to register one.
pub open spec fn post_step(s: PacerView) -> (PacerView, bool) {
    if !s.running || s.posted {
        (s, false)
    } else {
        (PacerView { posted: true, ..s }, true)
    }
}

/// Pacing starts, and asks for its first callback.
pub open spec fn start_step(s: PacerView) -> (PacerView, bool) {
    post_step(PacerView { running: true, ..s })
}

/// A vsync at `t`: the frame is ready, the callback is spent, and the
/// next one is asked for.
pub open spec fn vsync_step(s: PacerView, t: i64) -> (PacerView, bool) {
    post_step(PacerView { frame_time_ns: t, frame_ready: true, posted: false, ..s })
}

/// Pacing stops; a frame not yet taken is dropped.
pub open spec fn stop_step(s: PacerView) -> PacerView {
    PacerView { running: false, frame_ready: false, ..s }
}

/// The render loop takes the ready frame's time, once.
pub open spec fn take_step(s: PacerView) -> (PacerView, Option<i64>) {
    if s.frame_ready {
        (PacerView { frame_ready: false, ..s }, Some(s.frame_time_ns))
    } else {
        (s, None)
    }
}

/// Starts pacing; the answer says whether to register a vsync callback.
pub fn start(pacer: &mut FramePacer) -> (post: bool)
    ensures
        (final(pacer)@, post) == start_step(old(pacer)@),
{
    pacer.running = true;
    post_callback(pacer)
}

/// Asks for a vsync callback; the answer says whether to register one.
pub fn post_callback(pacer: &mut FramePacer) -> (post: bool)
    ensures
        (final(pacer)@, post) == post_step(old(pacer)@),
{
    if !pacer.running || pacer.posted {
        return false;
    }
    pacer.posted = true;
    true
}

/// The callback could not be registered (the display is not available):
/// the next request may try again.
pub fn abandon_post(pacer: &mut FramePacer)
    ensures
        final(pacer)@ == (PacerView { posted: false, ..old(pacer)@ }),
{
    pacer.posted = false;
}

/// Records a vsync at `frame_time_ns`; the answer says whether to
/// register the next callback.
pub fn on_vsync(pacer: &mut FramePacer, frame_time_ns: i64) -> (post: bool)
    ensures
        (final(pacer)@, post) == vsync_step(old(pacer)@, frame_time_ns),
{
    pacer.frame_time_ns = frame_time_ns;
    pacer.frame_ready = true;
    pacer.posted = false;
    post_callback(pacer)
}

/// Stops pacing.
pub fn stop(pacer: &mut FramePacer)
    ensures
        final(pacer)@ == stop_step(old(pacer)@),
{
    pacer.running = false;
    pacer.frame_ready = false;
}

/// The time of the frame made ready since the last call, once.
pub fn take_frame(pacer: &mut FramePacer) -> (t: Option<i64>)
    ensures
        (final(pacer)@, t) == take_step(old(pacer)@),
{
    if pacer.frame_ready {
        pacer.frame_ready = false;
        Some(pacer.frame_time_ns)
    } else {
        None
    }
}

/// Each vsync's frame is taken once, with the vsync's time.
pub proof fn law_frame_taken_once(s: PacerView, t: i64)
    ensures
        ({
            let (s1, _) = vsync_step(s, t);
            let (s2, first) = take_step(s1);
            let (_, second) = take_step(s2);
            first == Some(t) && second is None
        }),
{
}

/// While pacing runs, every vsync registers exactly the next callback;
/// once stopped, no callback is registered and no frame is handed out
/// until the next vsync.
pub proof fn law_one_callback_while_running(s: PacerView, t: i64)
    ensures
        s.running ==> vsync_step(s, t).1 && vsync_step(s, t).0.posted,
        !post_step(stop_step(s)).1,
        take_step(stop_step(s)).1 is None,
        post_step(post_step(s).0).1 == false,
{
}

} // verus!
