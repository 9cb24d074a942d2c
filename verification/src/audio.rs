//! Who is listening to the system audio, and whether the capture runs.
//!
//! The capture is ref-counted: the first visualizer turns it on, the last one turns it
//! off, and a stop that comes more often than a start never takes the count below zero.
//! The capture itself (loopback on the default render endpoint, the FFT, the bands) is
//! the caller's; it runs while `should_capture` says so.

use vstd::prelude::*;

verus! {

/// The slowest and fastest rates the levels are published at while audio plays.
pub const MIN_FPS: u32 = 5;
pub const MAX_FPS: u32 = 60;
/// The rate while the machine is silent, so the widget can stop drawing.
pub const SILENT_FPS: u32 = 6;

/// `fps` held to what the visualizer allows.
pub open spec fn clamp_fps(fps: u32) -> u32 {
    if fps < MIN_FPS { MIN_FPS } else if fps > MAX_FPS { MAX_FPS } else { fps }
}

/// The capture's bookkeeping: how many visualizers want it, whether its thread is up,
/// and the rate it publishes at.
pub struct Capture {
    clients: u32,
    running: bool,
    fps: u32,
}

pub struct CaptureView {
    pub clients: u32,
    pub running: bool,
    pub fps: u32,
}

impl View for Capture {
    type V = CaptureView;

    closed spec fn view(&self) -> CaptureView {
        CaptureView { clients: self.clients, running: self.running, fps: self.fps }
    }
}

/// A visualizer arrives: one more client, the rate it asked for, and a thread when none
/// is up. The result says whether a thread is to be started.
pub open spec fn after_start(v: CaptureView, fps: Option<u32>) -> (CaptureView, bool) {
    let fps = match fps { Some(f) => clamp_fps(f), None => v.fps };
    let clients = if v.clients == u32::MAX { 0 } else { (v.clients + 1) as u32 };
    (CaptureView { clients, running: true, fps }, !v.running)
}

/// A visualizer leaves; the count never goes below zero.
pub open spec fn after_stop(v: CaptureView) -> CaptureView {
    CaptureView { clients: if v.clients <= 1 { 0 } else { (v.clients - 1) as u32 }, ..v }
}

impl Capture {
    /// The rate is always one the visualizer allows.
    pub closed spec fn wf(&self) -> bool {
        MIN_FPS <= self.fps <= MAX_FPS
    }

    /// Nobody listening, no thread, thirty frames a second.
    pub fn new() -> (r: Self)
        ensures
            r.wf(),
            r@ == (CaptureView { clients: 0, running: false, fps: 30 }),
    {
        Capture { clients: 0, running: false, fps: 30 }
    }

    /// A visualizer wants the levels. True when the caller has to start the capture
    /// thread: the first one turns it on.
    pub fn start(&mut self, fps: Option<u32>) -> (spawn: bool)
        requires
            old(self).wf(),
        ensures
            final(self).wf(),
            (final(self)@, spawn) == after_start(old(self)@, fps),
    {
        if let Some(f) = fps {
            self.fps = if f < MIN_FPS { MIN_FPS } else if f > MAX_FPS { MAX_FPS } else { f };
        }
        self.clients = self.clients.wrapping_add(1);
        if self.running {
            return false;
        }
        self.running = true;
        true
    }

    /// Release one client's claim; capture stops once nobody is listening.
    pub fn stop(&mut self)
        requires
            old(self).wf(),
        ensures
            final(self).wf(),
            final(self)@ == after_stop(old(self)@),
    {
        let prev = self.clients;
        self.clients = prev.wrapping_sub(1);
        if prev <= 1 {
            self.clients = 0;
        }
    }

    /// Bring the capture back if its thread died, without touching the count: only
    /// revives when a visualizer is still watching. True when a thread is to be started.
    pub fn ensure_running(&mut self, fps: Option<u32>) -> (spawn: bool)
        requires
            old(self).wf(),
        ensures
            final(self).wf(),
            old(self)@.running || old(self)@.clients == 0 ==> !spawn && final(self)@ == old(self)@,
            !(old(self)@.running || old(self)@.clients == 0) ==> (final(self)@, spawn) == after_start(old(self)@, fps),
    {
        if self.running || self.clients == 0 {
            return false;
        }
        self.start(fps)
    }

    /// The rate the levels are published at while audio plays.
    pub fn set_fps(&mut self, fps: u32)
        requires
            old(self).wf(),
        ensures
            final(self).wf(),
            final(self)@ == (CaptureView { fps: clamp_fps(fps), ..old(self)@ }),
    {
        self.fps = if fps < MIN_FPS { MIN_FPS } else if fps > MAX_FPS { MAX_FPS } else { fps };
    }

    /// True while the capture thread holds an audio client.
    pub fn is_running(&self) -> (r: bool)
        ensures
            r == self@.running,
    {
        self.running
    }

    /// The capture thread ended.
    pub fn capture_ended(&mut self)
        requires
            old(self).wf(),
        ensures
            final(self).wf(),
            final(self)@ == (CaptureView { running: false, ..old(self)@ }),
    {
        self.running = false;
    }

    /// Keep capturing? Only while somebody listens.
    pub fn should_capture(&self) -> (r: bool)
        ensures
            r == (self@.clients > 0),
    {
        self.clients > 0
    }

    /// The rate to publish at now: a trickle while silent.
    pub fn target_fps(&self, silent: bool) -> (r: u32)
        requires
            self.wf(),
        ensures
            r == (if silent { SILENT_FPS } else { self@.fps }),
            MIN_FPS <= r <= MAX_FPS,
    {
        if silent { SILENT_FPS } else { self.fps }
    }
}

// ------------------------------------------------------------------------------------
// Laws
// ------------------------------------------------------------------------------------

/// A stop that comes more often than a start never takes the count below zero, and a
/// start then a stop leaves the count where it was.
pub proof fn stops_never_underflow(v: CaptureView, fps: Option<u32>)
    requires
        v.clients < u32::MAX,
    ensures
        v.clients == 0 ==> after_stop(v).clients == 0,
        after_stop(after_start(v, fps).0).clients == v.clients,
{
}

/// Only the first visualizer starts a thread; while one runs, more visualizers only
/// count.
pub proof fn only_the_first_client_spawns(v: CaptureView, a: Option<u32>, b: Option<u32>)
    ensures
        !after_start(after_start(v, a).0, b).1,
{
}

} // verus!
