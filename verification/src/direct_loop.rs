//! The headless supervisor of a direct run. Once the app is ready, a loop checks for a stop
//! request and the session deadline, maintains the instance, maintains session continuity
//! while it is enabled, and answers control requests until one of them asks for a restart.
//! Each decision is one step from the loop's state and what the last piece of outside work
//! reported; the caller performs the action and reports back.

use vstd::prelude::*;

verus! {

/// Where the loop stands.
#[derive(Debug, Clone, Copy, PartialEq, Eq, Structural)]
pub enum DirectPhase {
    /// At the top of the loop, waiting for the stop flag and the clock.
    Idle,
    /// The instance is being maintained.
    Instance,
    /// Session continuity is being maintained.
    Continuity,
    /// Control requests are being answered.
    Control,
    /// The loop has ended.
    Done,
}

/// The loop's state.
#[derive(Debug, Clone, Copy, PartialEq, Eq, Structural)]
pub struct DirectLoopState {
    pub phase: DirectPhase,
    /// Whether the session continuity monitor still runs.
    pub continuity: bool,
    /// Whether a control request asked for a restart.
    pub restart_requested: bool,
    /// How long the session may last, in seconds; none for no limit.
    pub session_timeout_seconds: Option<u64>,
}

/// What the last piece of outside work reported.
#[derive(Debug, Clone, Copy, PartialEq, Eq, Structural)]
pub enum DirectLoopEvent {
    /// The top of the loop: whether a stop was requested, and how long the session has run.
    Tick { stopping: bool, elapsed_ms: u64 },
    /// The instance was maintained; it may have exited.
    InstanceMaintained { exited: bool },
    /// Session continuity was maintained: the monitor may have failed, or a finished
    /// worker may have reported a failure.
    ContinuityMaintained { monitor_failed: bool, worker_failed: bool },
    /// One control request was answered; it may require a restart.
    ControlAnswered { restart_required: bool },
    /// No control request is left to answer.
    ControlDrained,
}

/// What the caller does next.
#[derive(Debug, Clone, Copy, PartialEq, Eq, Structural)]
pub enum DirectLoopAction {
    /// Sleep half a second, then maintain the instance.
    SleepThenMaintainInstance,
    /// Maintain session continuity.
    MaintainContinuity,
    /// Report the failed continuity worker, then answer control requests.
    ReportWorkerFailure,
    /// Report and drop the failed continuity monitor, then answer control requests.
    DisableContinuity,
    /// Answer the next pending control request.
    AnswerControlRequests,
    /// Check the stop flag and the clock again.
    CheckStop,
    /// Announce the restart, then stop continuity and shut the instance down.
    AnnounceRestart,
    /// Stop continuity and shut the instance down.
    Shutdown,
    /// The event does not belong to the current phase: nothing to do.
    Ignore,
}

/// The session may go on: no stop was requested and the deadline, if any, lies ahead.
pub open spec fn session_goes_on(stopping: bool, elapsed_ms: u64, timeout_seconds: Option<u64>) -> bool {
    !stopping && match timeout_seconds {
        Some(seconds) => elapsed_ms < seconds * 1000,
        None => true,
    }
}

/// One step of the loop.
pub open spec fn direct_step(state: DirectLoopState, event: DirectLoopEvent) -> (DirectLoopState, DirectLoopAction) {
    match (state.phase, event) {
        (DirectPhase::Idle, DirectLoopEvent::Tick { stopping, elapsed_ms }) => {
            if session_goes_on(stopping, elapsed_ms, state.session_timeout_seconds) {
                (DirectLoopState { phase: DirectPhase::Instance, ..state }, DirectLoopAction::SleepThenMaintainInstance)
            } else {
                (DirectLoopState { phase: DirectPhase::Done, ..state }, DirectLoopAction::Shutdown)
            }
        },
        (DirectPhase::Instance, DirectLoopEvent::InstanceMaintained { exited }) => {
            if exited {
                (DirectLoopState { phase: DirectPhase::Done, ..state }, DirectLoopAction::Shutdown)
            } else if state.continuity {
                (DirectLoopState { phase: DirectPhase::Continuity, ..state }, DirectLoopAction::MaintainContinuity)
            } else {
                (DirectLoopState { phase: DirectPhase::Control, ..state }, DirectLoopAction::AnswerControlRequests)
            }
        },
        (DirectPhase::Continuity, DirectLoopEvent::ContinuityMaintained { monitor_failed, worker_failed }) => {
            if monitor_failed {
                (
                    DirectLoopState { phase: DirectPhase::Control, continuity: false, ..state },
                    DirectLoopAction::DisableContinuity,
                )
            } else if worker_failed {
                (DirectLoopState { phase: DirectPhase::Control, ..state }, DirectLoopAction::ReportWorkerFailure)
            } else {
                (DirectLoopState { phase: DirectPhase::Control, ..state }, DirectLoopAction::AnswerControlRequests)
            }
        },
        (DirectPhase::Control, DirectLoopEvent::ControlAnswered { restart_required }) => {
            if restart_required {
                (
                    DirectLoopState { phase: DirectPhase::Done, restart_requested: true, ..state },
                    DirectLoopAction::AnnounceRestart,
                )
            } else {
                (state, DirectLoopAction::AnswerControlRequests)
            }
        },
        (DirectPhase::Control, DirectLoopEvent::ControlDrained) => {
            (DirectLoopState { phase: DirectPhase::Idle, ..state }, DirectLoopAction::CheckStop)
        },
        _ => (state, DirectLoopAction::Ignore),
    }
}

impl DirectLoopState {
    /// The state the loop starts in, right after the app reported ready.
    pub fn new(continuity: bool, session_timeout_seconds: Option<u64>) -> (result: Self)
        ensures
            result == (DirectLoopState {
                phase: DirectPhase::Idle,
                continuity,
                restart_requested: false,
                session_timeout_seconds,
            }),
    {
        DirectLoopState { phase: DirectPhase::Idle, continuity, restart_requested: false, session_timeout_seconds }
    }
}

fn goes_on(stopping: bool, elapsed_ms: u64, timeout_seconds: Option<u64>) -> (result: bool)
    ensures
        result == session_goes_on(stopping, elapsed_ms, timeout_seconds),
{
    if stopping {
        return false;
    }
    match timeout_seconds {
        Some(seconds) => (elapsed_ms as u128) < (seconds as u128) * 1000,
        None => true,
    }
}

/// Decides the next step of the supervision loop from its state and the event the caller
/// reports.
pub fn direct_supervision_step(state: &DirectLoopState, event: DirectLoopEvent) -> (result: (
    DirectLoopState,
    DirectLoopAction,
))
    ensures
        result == direct_step(*state, event),
{
    let s = *state;
    match (s.phase, event) {
        (DirectPhase::Idle, DirectLoopEvent::Tick { stopping, elapsed_ms }) => {
            if goes_on(stopping, elapsed_ms, s.session_timeout_seconds) {
                (DirectLoopState { phase: DirectPhase::Instance, ..s }, DirectLoopAction::SleepThenMaintainInstance)
            } else {
                (DirectLoopState { phase: DirectPhase::Done, ..s }, DirectLoopAction::Shutdown)
            }
        },
        (DirectPhase::Instance, DirectLoopEvent::InstanceMaintained { exited }) => {
            if exited {
                (DirectLoopState { phase: DirectPhase::Done, ..s }, DirectLoopAction::Shutdown)
            } else if s.continuity {
                (DirectLoopState { phase: DirectPhase::Continuity, ..s }, DirectLoopAction::MaintainContinuity)
            } else {
                (DirectLoopState { phase: DirectPhase::Control, ..s }, DirectLoopAction::AnswerControlRequests)
            }
        },
        (DirectPhase::Continuity, DirectLoopEvent::ContinuityMaintained { monitor_failed, worker_failed }) => {
            if monitor_failed {
                (DirectLoopState { phase: DirectPhase::Control, continuity: false, ..s }, DirectLoopAction::DisableContinuity)
            } else if worker_failed {
                (DirectLoopState { phase: DirectPhase::Control, ..s }, DirectLoopAction::ReportWorkerFailure)
            } else {
                (DirectLoopState { phase: DirectPhase::Control, ..s }, DirectLoopAction::AnswerControlRequests)
            }
        },
        (DirectPhase::Control, DirectLoopEvent::ControlAnswered { restart_required }) => {
            if restart_required {
                (DirectLoopState { phase: DirectPhase::Done, restart_requested: true, ..s }, DirectLoopAction::AnnounceRestart)
            } else {
                (s, DirectLoopAction::AnswerControlRequests)
            }
        },
        (DirectPhase::Control, DirectLoopEvent::ControlDrained) => {
            (DirectLoopState { phase: DirectPhase::Idle, ..s }, DirectLoopAction::CheckStop)
        },
        _ => (s, DirectLoopAction::Ignore),
    }
}

/// Once the loop has ended it stays ended, and nothing more is done.
pub proof fn lemma_done_is_final(state: DirectLoopState, event: DirectLoopEvent)
    requires
        state.phase == DirectPhase::Done,
    ensures
        direct_step(state, event) == (state, DirectLoopAction::Ignore),
{
}

/// The loop ends only with the instance shut down: every step into the end announces a
/// restart or shuts down.
pub proof fn lemma_end_shuts_down(state: DirectLoopState, event: DirectLoopEvent)
    requires
        state.phase != DirectPhase::Done,
        direct_step(state, event).0.phase == DirectPhase::Done,
    ensures
        direct_step(state, event).1 == DirectLoopAction::Shutdown || direct_step(state, event).1
            == DirectLoopAction::AnnounceRestart,
{
}

/// A restart is recorded only when an answered control request required one, and it ends
/// the loop with the announcement.
pub proof fn lemma_restart_only_on_request(state: DirectLoopState, event: DirectLoopEvent)
    requires
        !state.restart_requested,
        direct_step(state, event).0.restart_requested,
    ensures
        state.phase == DirectPhase::Control,
        event == (DirectLoopEvent::ControlAnswered { restart_required: true }),
        direct_step(state, event).0.phase == DirectPhase::Done,
        direct_step(state, event).1 == DirectLoopAction::AnnounceRestart,
{
}

/// A disabled continuity monitor is never enabled again, and it is disabled only when the
/// monitor failed.
pub proof fn lemma_continuity_only_turns_off(state: DirectLoopState, event: DirectLoopEvent)
    ensures
        !state.continuity ==> !direct_step(state, event).0.continuity,
        state.continuity && !direct_step(state, event).0.continuity ==> event matches DirectLoopEvent::ContinuityMaintained {
            monitor_failed: true,
            ..
        },
        direct_step(state, event).0.session_timeout_seconds == state.session_timeout_seconds,
{
}

} // verus!
