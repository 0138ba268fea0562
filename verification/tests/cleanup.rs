use std::collections::BTreeSet;

use codex_administrator::cleanup::{capture_is_quiet, CaptureReport, CleanupStep, DescendantCleanup};
use codex_administrator::lineage::DESCENDANT_QUIESCENCE_DURATION;
use codex_administrator::lineage_state::{CaptureOutcome, LineageCaptureInput, LineageObservationState};

/// Drives a cleanup the way the runtime does, on a simulated clock: capture, wait up to
/// 50 ms before the deadline, report nothing live, settle.
fn drive<F>(timeout: u64, quiescence: u64, mut capture: F) -> (CleanupStep, usize)
where
    F: FnMut(usize, &LineageCaptureInput) -> CaptureReport,
{
    let mut lineage = LineageObservationState::default();
    let mut now = 1_000u64;
    let deadline = now + timeout;
    let mut cleanup = DescendantCleanup::new(deadline, quiescence);
    let mut captures = 0;
    loop {
        let Some(input) = cleanup.begin_capture(&mut lineage, now) else {
            return (CleanupStep::TimedOut, captures);
        };
        captures += 1;
        let report = capture(captures, &input);
        cleanup.record_capture(&mut lineage, &report, now);
        now = (now + 50).min(deadline);
        match cleanup.settle(&mut lineage, capture_is_quiet(&report), 0, now) {
            CleanupStep::Continue => {}
            step => return (step, captures),
        }
    }
}

fn quiet() -> CaptureReport {
    CaptureReport::Captured(CaptureOutcome::empty())
}

#[test]
fn temporary_anchor_descendant_must_disappear_before_cleanup_succeeds() {
    let mut observed_anchor = false;
    let (step, captures) = drive(1_000, 100, |capture, input| {
        if capture == 1 {
            let mut outcome = CaptureOutcome::empty();
            outcome.lineage_anchors = BTreeSet::from([20]);
            return CaptureReport::Captured(outcome);
        }
        if capture == 2 {
            observed_anchor = input.anchors.contains(&20);
            let mut outcome = CaptureOutcome::empty();
            outcome.uncertain_lineage = BTreeSet::from([30]);
            return CaptureReport::Captured(outcome);
        }
        quiet()
    });
    assert!(observed_anchor);
    assert_eq!(step, CleanupStep::Succeeded);
    assert!(captures >= 4);
}

#[test]
fn persistent_temporary_anchor_descendant_times_out_cleanup() {
    let (step, _) = drive(220, 100, |capture, _| {
        let mut outcome = CaptureOutcome::empty();
        if capture == 1 {
            outcome.lineage_anchors = BTreeSet::from([20]);
        } else {
            outcome.uncertain_lineage = BTreeSet::from([30]);
        }
        CaptureReport::Captured(outcome)
    });
    assert_eq!(step, CleanupStep::TimedOut);
}

#[test]
fn descendant_cleanup_reports_a_transient_snapshot_failure() {
    let (step, _) = drive(30_000, DESCENDANT_QUIESCENCE_DURATION, |capture, _| {
        if capture == 1 {
            CaptureReport::SnapshotFailed("injected transient snapshot failure".into())
        } else {
            quiet()
        }
    });
    assert_eq!(step, CleanupStep::Failed);
}

#[test]
fn descendant_cleanup_reports_a_transient_inaccessible_process() {
    let (step, _) = drive(30_000, DESCENDANT_QUIESCENCE_DURATION, |capture, _| {
        let mut outcome = CaptureOutcome::empty();
        if capture == 1 {
            outcome.inaccessible = BTreeSet::from([42]);
        }
        CaptureReport::Captured(outcome)
    });
    assert_eq!(step, CleanupStep::Failed);
}

#[test]
fn quiet_tree_succeeds_once_the_quiescence_window_has_passed() {
    let (step, captures) = drive(1_000, 0, |_, _| quiet());
    assert_eq!((step, captures), (CleanupStep::Succeeded, 1));
    let (step, captures) = drive(1_000, 200, |_, _| quiet());
    assert_eq!((step, captures), (CleanupStep::Succeeded, 5));
}

#[test]
fn descendant_cleanup_does_not_succeed_after_its_deadline() {
    let mut lineage = LineageObservationState::default();
    let mut cleanup = DescendantCleanup::new(10, 0);
    assert!(cleanup.begin_capture(&mut lineage, 0).is_some());
    cleanup.record_capture(&mut lineage, &quiet(), 50);
    assert_eq!(cleanup.settle(&mut lineage, true, 0, 50), CleanupStep::TimedOut);
}

#[test]
fn descendant_cleanup_deadline_includes_work_before_the_lineage_loop() {
    let mut captures = 0;
    let mut lineage = LineageObservationState::default();
    let cleanup = DescendantCleanup::new(10, 0);
    if cleanup.begin_capture(&mut lineage, 30).is_some() {
        captures += 1;
    }
    assert_eq!(captures, 0);
}

#[test]
fn live_processes_and_noisy_captures_keep_cleanup_waiting() {
    let mut lineage = LineageObservationState::default();
    let mut cleanup = DescendantCleanup::new(10_000, 0);
    assert_eq!(cleanup.settle(&mut lineage, true, 1, 100), CleanupStep::Continue);
    let mut busy = CaptureOutcome::empty();
    busy.added = 1;
    assert!(!capture_is_quiet(&CaptureReport::Captured(busy)));
    assert!(!capture_is_quiet(&CaptureReport::SnapshotFailed("x".into())));
    assert_eq!(cleanup.settle(&mut lineage, true, 0, 200), CleanupStep::Succeeded);
}
