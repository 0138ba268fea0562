use codex_administrator::descendant_capture::{descendant_capture_step, CaptureAction, CaptureEvent, CaptureState};
use codex_administrator::lineage::{ProcessGeneration, ProcessIdentity};

fn live(created_at: u64) -> ProcessGeneration {
    ProcessGeneration { created_at, exited_at: None }
}

/// Drives a capture to its end, answering each open from `world` (pid → outcome).
fn drive(state: &mut CaptureState, world: &dyn Fn(u32) -> CaptureEvent) -> Vec<CaptureAction> {
    let mut actions = Vec::new();
    let mut event = CaptureEvent::Continue;
    loop {
        let action = descendant_capture_step(state, event);
        actions.push(action);
        event = match action {
            CaptureAction::Open(pid) => world(pid),
            CaptureAction::Finished => return actions,
            CaptureAction::Ignore => panic!("unexpected event"),
            _ => CaptureEvent::Continue,
        };
    }
}

#[test]
fn a_capture_matches_children_in_rounds_and_keeps_new_ones() {
    // 10 is followed; 30 is listed before its parent 20, so it matches in the second round.
    let entries = vec![(30, 20), (20, 10), (40, 99), (0, 0), (50, 50)];
    let mut state = CaptureState::new(1_000, &entries, &vec![], &vec![(10, live(100))]);
    let world = |pid: u32| match pid {
        20 => CaptureEvent::Opened(live(200)),
        30 => CaptureEvent::Opened(live(300)),
        _ => CaptureEvent::OpenFailed { error_code: None, still_present: false },
    };
    let actions = drive(&mut state, &world);
    assert!(actions.contains(&CaptureAction::Keep(ProcessIdentity { pid: 20, created_at: 200 })));
    assert!(actions.contains(&CaptureAction::Keep(ProcessIdentity { pid: 30, created_at: 300 })));
    assert_eq!(state.added, 2);
    assert!(state.anchors.is_empty());
    assert!(state.inaccessible.is_empty());
}

#[test]
fn unopenable_and_reused_processes_leave_uncertainty() {
    let entries = vec![(20, 10), (30, 10), (40, 10), (50, 10)];
    let mut state = CaptureState::new(1_000, &entries, &vec![40], &vec![(10, live(100))]);
    let world = |pid: u32| match pid {
        20 => CaptureEvent::OpenFailed { error_code: Some(5), still_present: true },
        30 => CaptureEvent::OpenFailed { error_code: Some(87), still_present: true },
        _ => CaptureEvent::Opened(live(5_000)),
    };
    let actions = drive(&mut state, &world);
    assert_eq!(state.inaccessible, vec![20]);
    assert_eq!(state.anchors, vec![30, 50]);
    assert!(actions.contains(&CaptureAction::Release));
    assert_eq!(state.added, 0);
    assert_eq!(descendant_capture_step(&mut state, CaptureEvent::Continue), CaptureAction::Ignore);
}

#[test]
fn a_child_created_before_its_parent_waits_and_becomes_a_visible_anchor() {
    let entries = vec![(20, 10)];
    let mut state = CaptureState::new(1_000, &entries, &vec![], &vec![(10, live(500))]);
    let world = |_: u32| CaptureEvent::Opened(live(100));
    drive(&mut state, &world);
    assert_eq!(state.visible_anchors, vec![20]);
    assert_eq!(state.anchors, vec![20]);
}
