use codex_administrator::direct_loop::{
    direct_supervision_step, DirectLoopAction, DirectLoopEvent, DirectLoopState, DirectPhase,
};

#[test]
fn a_restart_request_ends_the_loop_with_an_announcement() {
    let state = DirectLoopState::new(true, None);
    let (state, action) =
        direct_supervision_step(&state, DirectLoopEvent::Tick { stopping: false, elapsed_ms: 10_000_000 });
    assert_eq!(action, DirectLoopAction::SleepThenMaintainInstance);
    let (state, action) = direct_supervision_step(&state, DirectLoopEvent::InstanceMaintained { exited: false });
    assert_eq!(action, DirectLoopAction::MaintainContinuity);
    let (state, action) = direct_supervision_step(
        &state,
        DirectLoopEvent::ContinuityMaintained { monitor_failed: false, worker_failed: true },
    );
    assert_eq!(action, DirectLoopAction::ReportWorkerFailure);
    assert!(state.continuity);
    let (state, action) =
        direct_supervision_step(&state, DirectLoopEvent::ControlAnswered { restart_required: false });
    assert_eq!(action, DirectLoopAction::AnswerControlRequests);
    let (state, action) = direct_supervision_step(&state, DirectLoopEvent::ControlAnswered { restart_required: true });
    assert_eq!(action, DirectLoopAction::AnnounceRestart);
    assert_eq!(state.phase, DirectPhase::Done);
    assert!(state.restart_requested);
    let (after, action) = direct_supervision_step(&state, DirectLoopEvent::ControlDrained);
    assert_eq!(action, DirectLoopAction::Ignore);
    assert_eq!(after, state);
}

#[test]
fn a_failed_monitor_is_dropped_and_the_deadline_stops_the_session() {
    let state = DirectLoopState::new(true, Some(2));
    let (state, _) = direct_supervision_step(&state, DirectLoopEvent::Tick { stopping: false, elapsed_ms: 1_999 });
    let (state, _) = direct_supervision_step(&state, DirectLoopEvent::InstanceMaintained { exited: false });
    let (state, action) = direct_supervision_step(
        &state,
        DirectLoopEvent::ContinuityMaintained { monitor_failed: true, worker_failed: false },
    );
    assert_eq!(action, DirectLoopAction::DisableContinuity);
    assert!(!state.continuity);
    let (state, action) = direct_supervision_step(&state, DirectLoopEvent::ControlDrained);
    assert_eq!(action, DirectLoopAction::CheckStop);
    let (state, action) = direct_supervision_step(&state, DirectLoopEvent::Tick { stopping: false, elapsed_ms: 1_500 });
    assert_eq!(action, DirectLoopAction::SleepThenMaintainInstance);
    let (state, action) = direct_supervision_step(&state, DirectLoopEvent::InstanceMaintained { exited: false });
    assert_eq!(action, DirectLoopAction::AnswerControlRequests);
    let (state, _) = direct_supervision_step(&state, DirectLoopEvent::ControlDrained);
    let (state, action) = direct_supervision_step(&state, DirectLoopEvent::Tick { stopping: false, elapsed_ms: 2_000 });
    assert_eq!(action, DirectLoopAction::Shutdown);
    assert_eq!(state.phase, DirectPhase::Done);
    assert!(!state.restart_requested);
}

#[test]
fn a_stop_request_or_an_exited_instance_shuts_down() {
    let state = DirectLoopState::new(false, None);
    let (stopped, action) = direct_supervision_step(&state, DirectLoopEvent::Tick { stopping: true, elapsed_ms: 0 });
    assert_eq!(action, DirectLoopAction::Shutdown);
    assert_eq!(stopped.phase, DirectPhase::Done);
    let (running, _) = direct_supervision_step(&state, DirectLoopEvent::Tick { stopping: false, elapsed_ms: 0 });
    let (exited, action) = direct_supervision_step(&running, DirectLoopEvent::InstanceMaintained { exited: true });
    assert_eq!(action, DirectLoopAction::Shutdown);
    assert_eq!(exited.phase, DirectPhase::Done);
    let (_, action) = direct_supervision_step(&state, DirectLoopEvent::ControlDrained);
    assert_eq!(action, DirectLoopAction::Ignore);
}
