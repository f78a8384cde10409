use vstd::prelude::*;

verus! {

/// Lifecycle of the external detector process. Exactly one session may
/// be running at a time; the process handle itself lives with the caller
/// that performs the launching, piping and killing, and every handle
/// action is decided here first.
#[derive(PartialEq, Eq, Structural, Clone, Copy, Debug)]
pub enum DetectorState {
    NotStarted,
    Running,
    Stopping,
    Stopped,
}

/// The labeled process-lifecycle failures.
#[derive(PartialEq, Eq, Structural, Clone, Copy, Debug)]
pub enum DetectorError {
    /// A detection was requested but no process is running.
    NotStarted,
    /// The process could not be launched.
    LaunchFailed,
    /// Writing the request or reading the response failed; the process
    /// is treated as dead and is not restarted automatically.
    PipeBroken,
    /// The handle lock was poisoned by a panicking holder.
    LockPoisoned,
}

impl DetectorError {
    /// A short description of the failure.
    pub fn message(&self) -> (m: &'static str)
        ensures
            *self == DetectorError::NotStarted ==> m@ == "Python process not started"@,
            *self == DetectorError::LaunchFailed ==> m@ == "Failed to start Python process"@,
            *self == DetectorError::PipeBroken ==> m@ == "Python process pipe broken"@,
            *self == DetectorError::LockPoisoned ==> m@ == "Handle lock poisoned"@,
    {
        match self {
            DetectorError::NotStarted => "Python process not started",
            DetectorError::LaunchFailed => "Failed to start Python process",
            DetectorError::PipeBroken => "Python process pipe broken",
            DetectorError::LockPoisoned => "Handle lock poisoned",
        }
    }
}

/// What one poll of the process's exit status reported.
#[derive(PartialEq, Eq, Structural, Clone, Copy, Debug)]
pub enum PollEvent {
    /// The process has exited on its own.
    Exited,
    /// The process is still running.
    StillRunning,
    /// The exit status could not be read.
    PollFailed,
}

/// The next step of the graceful-shutdown protocol.
#[derive(PartialEq, Eq, Structural, Clone, Copy, Debug)]
pub enum StopAction {
    /// The process is gone; the stop is complete.
    Finished,
    /// Wait one poll interval and poll again.
    SleepAndPoll,
    /// Force-terminate the process and block until it is reaped.
    Kill,
}

/// How long a stopped process is given to exit on its own.
pub const STOP_TIMEOUT_MS: u64 = 5_000;

/// How often its exit status is polled while waiting.
pub const STOP_POLL_INTERVAL_MS: u64 = 100;

/// The request token of the detector protocol, sent as one line.
pub fn detect_token() -> (t: &'static str)
    ensures
        t@ == "DETECT"@,
{
    "DETECT"
}

/// The shutdown token of the detector protocol, sent as one line.
pub fn quit_token() -> (t: &'static str)
    ensures
        t@ == "QUIT"@,
{
    "QUIT"
}

/// The stop decision: act only on a running session.
pub open spec fn spec_begin_stop(st: DetectorState) -> (bool, DetectorState) {
    if st == DetectorState::Running {
        (true, DetectorState::Stopping)
    } else {
        (false, st)
    }
}

/// Where a completed stop leaves each state.
pub open spec fn spec_stop_end(st: DetectorState) -> DetectorState {
    if st == DetectorState::Running {
        DetectorState::Stopped
    } else {
        st
    }
}

/// The shutdown step after `elapsed_ms` of waiting: past the timeout the
/// process is killed without further polling; before it, an exit
/// completes the stop, a running process is polled again after a sleep,
/// and a failed poll escalates to a kill.
pub open spec fn spec_stop_step(elapsed_ms: u64, ev: PollEvent) -> StopAction {
    if elapsed_ms >= STOP_TIMEOUT_MS {
        StopAction::Kill
    } else {
        match ev {
            PollEvent::Exited => StopAction::Finished,
            PollEvent::StillRunning => StopAction::SleepAndPoll,
            PollEvent::PollFailed => StopAction::Kill,
        }
    }
}

/// The decision layer of the detector supervisor: a pure state machine
/// over the session lifecycle. The caller owning the process handle asks
/// it before every launch, request and shutdown step, and reports each
/// outcome back.
pub struct EmotionService {
    pub state: DetectorState,
}

impl EmotionService {
    /// A fresh supervisor with no session started.
    pub fn new() -> (s: Self)
        ensures
            s.state == DetectorState::NotStarted,
    {
        EmotionService { state: DetectorState::NotStarted }
    }

    /// Whether a start must launch the process: starting a running
    /// session is a successful no-op.
    pub fn needs_launch(&self) -> (b: bool)
        ensures
            b == (self.state != DetectorState::Running),
    {
        !(self.state == DetectorState::Running)
    }

    /// Records the outcome of a launch: success makes the session
    /// running, failure leaves the state as it was.
    pub fn on_launch_result(&mut self, ok: bool)
        requires
            old(self).state != DetectorState::Running,
        ensures
            ok ==> final(self).state == DetectorState::Running,
            !ok ==> final(self).state == old(self).state,
    {
        if ok {
            self.state = DetectorState::Running;
        }
    }

    /// Whether a detection round-trip may touch the process now: only a
    /// running session accepts one, anything else is the not-started
    /// error.
    pub fn detect_request(&self) -> (r: Result<(), DetectorError>)
        ensures
            r == (if self.state == DetectorState::Running {
                Ok::<(), DetectorError>(())
            } else {
                Err::<(), DetectorError>(DetectorError::NotStarted)
            }),
    {
        if self.state == DetectorState::Running {
            Ok(())
        } else {
            Err(DetectorError::NotStarted)
        }
    }

    /// Begins a stop. It returns whether the caller must act (send the
    /// quit token and wait): stopping anything but a running session is
    /// a no-op, so a second stop never acts.
    pub fn begin_stop(&mut self) -> (act: bool)
        ensures
            act == spec_begin_stop(old(self).state).0,
            final(self).state == spec_begin_stop(old(self).state).1,
    {
        if self.state == DetectorState::Running {
            self.state = DetectorState::Stopping;
            true
        } else {
            false
        }
    }

    /// The next shutdown step while a stop is in progress.
    pub fn stop_step(&self, elapsed_ms: u64, ev: PollEvent) -> (a: StopAction)
        requires
            self.state == DetectorState::Stopping,
        ensures
            a == spec_stop_step(elapsed_ms, ev),
    {
        if elapsed_ms >= STOP_TIMEOUT_MS {
            StopAction::Kill
        } else {
            match ev {
                PollEvent::Exited => StopAction::Finished,
                PollEvent::StillRunning => StopAction::SleepAndPoll,
                PollEvent::PollFailed => StopAction::Kill,
            }
        }
    }

    /// Ends a stop, after the process exited or was killed and reaped.
    pub fn confirm_stopped(&mut self)
        requires
            old(self).state == DetectorState::Stopping,
        ensures
            final(self).state == DetectorState::Stopped,
    {
        self.state = DetectorState::Stopped;
    }
}

/// Stopping twice is a no-op the second time: whatever state a completed
/// stop leaves, a second stop does not act and does not move the state.
pub proof fn lemma_second_stop_noop(st: DetectorState)
    ensures
        !spec_begin_stop(spec_stop_end(st)).0,
        spec_begin_stop(spec_stop_end(st)).1 == spec_stop_end(st),
{
}

/// A process that ignores the quit token never reports an exit, so once
/// the timeout has elapsed the protocol decides to kill it, and the stop
/// then ends in the stopped state.
pub proof fn lemma_stop_times_out(elapsed_ms: u64)
    requires
        elapsed_ms >= STOP_TIMEOUT_MS,
    ensures
        forall|ev: PollEvent| spec_stop_step(elapsed_ms, ev) == StopAction::Kill,
        spec_stop_end(DetectorState::Running) == DetectorState::Stopped,
{
}

/// Before the timeout, a live process is simply polled again, and an
/// exited one completes the stop without a kill.
pub proof fn lemma_stop_graceful(elapsed_ms: u64)
    requires
        elapsed_ms < STOP_TIMEOUT_MS,
    ensures
        spec_stop_step(elapsed_ms, PollEvent::StillRunning) == StopAction::SleepAndPoll,
        spec_stop_step(elapsed_ms, PollEvent::Exited) == StopAction::Finished,
{
}

} // verus!
