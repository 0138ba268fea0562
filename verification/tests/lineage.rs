use std::collections::BTreeSet;

use codex_administrator::lineage::{
    classify_snapshot_open_failure, descendant_entry_needs_retry, lineage_process_ids,
    snapshot_generation_precedes_capture, snapshot_process_requires_lineage_anchor,
    snapshot_process_requires_uncertainty, tracked_generation_is_parent_candidate,
    uncertain_lineage_process_ids, unresolved_descendant_requires_lineage_anchor,
    validate_snapshot_clock, validate_snapshot_progress, ProcessGeneration, SnapshotProcess,
    DESCENDANT_QUIESCENCE_DURATION, DROP_DESCENDANT_TIMEOUT,
};
use codex_administrator::lineage_state::{
    CaptureOutcome, DescendantQuiescence, LineageObservationState, ObservedLineageEdges,
};

// Times are monotonic milliseconds; `START` stands for the first observation.
const START: u64 = 1_000_000;

#[test]
fn escaped_process_cleanup_tracks_the_full_descendant_tree() {
    let entries = [(20, 10), (30, 20), (40, 30), (50, 999), (60, 50)];

    assert_eq!(
        lineage_process_ids(&entries, &BTreeSet::from([10])),
        BTreeSet::from([10, 20, 30, 40])
    );
}

#[test]
fn process_generation_accepts_a_child_created_before_parent_exit() {
    let parent = ProcessGeneration {
        created_at: 100,
        exited_at: Some(300),
    };

    assert!(parent.can_parent(200, 400));
}

#[test]
fn process_generation_rejects_a_child_at_the_parent_exit_boundary() {
    let parent = ProcessGeneration {
        created_at: 100,
        exited_at: Some(300),
    };

    assert!(!parent.can_parent(300, 400));
}

#[test]
fn process_generation_rejects_a_child_created_after_parent_exit() {
    let parent = ProcessGeneration {
        created_at: 100,
        exited_at: Some(300),
    };

    assert!(!parent.can_parent(301, 400));
}

#[test]
fn process_generation_rejects_a_process_created_after_the_snapshot() {
    let parent = ProcessGeneration {
        created_at: 100,
        exited_at: None,
    };

    assert!(!parent.can_parent(401, 400));
}

#[test]
fn completed_generation_remains_a_parent_candidate_after_pid_reuse() {
    let generation = ProcessGeneration {
        created_at: 100,
        exited_at: Some(300),
    };

    assert!(tracked_generation_is_parent_candidate(generation));
}

#[test]
fn generation_mismatch_retries_for_a_later_parent_generation() {
    assert!(descendant_entry_needs_retry(true, false));
}

#[test]
fn unresolved_child_of_a_known_parent_requires_a_temporary_anchor() {
    assert!(unresolved_descendant_requires_lineage_anchor(true));
    assert!(!unresolved_descendant_requires_lineage_anchor(false));
}

#[test]
fn only_live_inaccessible_snapshot_processes_create_identity_uncertainty() {
    assert!(snapshot_process_requires_uncertainty(
        &SnapshotProcess::Inaccessible {
            error_code: Some(5)
        }
    ));
    assert!(!snapshot_process_requires_uncertainty(
        &SnapshotProcess::VanishedBeforeOpen
    ));
    assert!(!snapshot_process_requires_uncertainty(
        &SnapshotProcess::ReusedAfterSnapshot
    ));
}

#[test]
fn vanished_and_reused_snapshot_processes_create_temporary_lineage_anchors() {
    assert!(snapshot_process_requires_lineage_anchor(
        &SnapshotProcess::VanishedBeforeOpen
    ));
    assert!(snapshot_process_requires_lineage_anchor(
        &SnapshotProcess::ReusedAfterSnapshot
    ));
    assert!(!snapshot_process_requires_lineage_anchor(
        &SnapshotProcess::Inaccessible {
            error_code: Some(5)
        }
    ));
}

#[test]
fn snapshot_generation_equality_is_treated_as_pid_reuse() {
    assert!(!snapshot_generation_precedes_capture(100, 100));
    assert!(!snapshot_generation_precedes_capture(101, 100));
    assert!(snapshot_generation_precedes_capture(99, 100));
}

#[test]
fn snapshot_clock_rollback_fails_closed() {
    assert!(validate_snapshot_clock(100, 99).is_err());
    assert!(validate_snapshot_clock(100, 100).is_ok());
    assert!(validate_snapshot_clock(100, 101).is_ok());
}

#[test]
fn cross_snapshot_clock_rollback_fails_before_lineage_processing() {
    assert!(validate_snapshot_progress(Some(100), 99).is_err());
    assert!(validate_snapshot_progress(Some(100), 100).is_ok());
    assert!(validate_snapshot_progress(Some(100), 101).is_ok());
}

#[test]
fn open_failure_requires_a_second_snapshot_before_permanent_uncertainty() {
    let vanished = classify_snapshot_open_failure(Some(5), false);
    assert!(matches!(vanished, SnapshotProcess::VanishedBeforeOpen));

    let inaccessible = classify_snapshot_open_failure(Some(5), true);
    assert!(matches!(
        inaccessible,
        SnapshotProcess::Inaccessible {
            error_code: Some(5)
        }
    ));
}

#[test]
fn uncertain_lineage_includes_all_descendants_of_a_temporary_anchor() {
    let entries = [(20, 10), (30, 20), (40, 30), (50, 999)];

    assert_eq!(
        lineage_process_ids(&entries, &BTreeSet::from([20])),
        BTreeSet::from([20, 30, 40])
    );
}

#[test]
fn promoted_lineage_member_keeps_a_grandchild_tainted_after_parent_exit() {
    let anchors = BTreeSet::from([20, 30, 40]);
    let members = BTreeSet::from([30, 40]);
    let entries = [(40, 30)];

    assert_eq!(
        uncertain_lineage_process_ids(&entries, &entries, &anchors, &members),
        BTreeSet::from([40])
    );
}

#[test]
fn historical_lineage_edge_connects_a_surviving_grandchild() {
    let start = START;
    let mut history = ObservedLineageEdges::default();
    history.observe(&[(30, 20)], start);
    history.observe(&[(40, 30)], start + 1_000);

    assert_eq!(
        uncertain_lineage_process_ids(
            &history.pairs(),
            &[(40, 30)],
            &BTreeSet::from([20]),
            &BTreeSet::new()
        ),
        BTreeSet::from([40])
    );

    history.prune(start + 7_000, 5_000);
    assert!(history.pairs().is_empty());
}

#[test]
fn historical_lineage_edge_does_not_make_a_missing_member_present() {
    assert_eq!(
        uncertain_lineage_process_ids(
            &[(30, 20)],
            &[],
            &BTreeSet::from([20]),
            &BTreeSet::from([30])
        ),
        BTreeSet::new()
    );
}

#[test]
fn capture_input_prunes_expired_lineage_before_exporting_it() {
    let start = START;
    let mut lineage = LineageObservationState::default();
    lineage.anchors.insert(20, start);
    lineage.members.insert(20);
    lineage.edges.observe(&[(30, 20)], start);
    lineage.last_snapshot_at = Some(42);

    let input = lineage.capture_input(start + 6_000, 5_000);

    assert!(input.anchors.is_empty());
    assert!(input.members.is_empty());
    assert!(input.edges.is_empty());
    assert_eq!(input.previous_snapshot_at, Some(42));
}

#[test]
fn drop_cleanup_timeout_exceeds_the_required_quiescence_window() {
    assert!(DROP_DESCENDANT_TIMEOUT > DESCENDANT_QUIESCENCE_DURATION);
}

#[test]
fn descendant_quiescence_restarts_after_a_late_process() {
    let start = START;
    let mut quiescence = DescendantQuiescence::new(5_000);

    assert!(!quiescence.observe(start, true));
    assert!(!quiescence.observe(start + 4_000, true));
    assert!(!quiescence.observe(start + 4_500, false));
    assert!(!quiescence.observe(start + 9_000, true));
    assert!(quiescence.observe(start + 14_000, true));
}

#[test]
fn fresh_anchor_is_kept_and_uncertainty_restarts_its_clock() {
    let mut lineage = LineageObservationState::default();
    let mut capture = CaptureOutcome::empty();
    capture.lineage_anchors.insert(20);
    capture.observed_edges.push((30, 20));
    capture.observed_edges.push((7, 7));
    capture.snapshot_at = Some(55);
    lineage.observe_capture(&capture, START, 5_000);
    assert_eq!(lineage.active_anchors(), BTreeSet::from([20]));
    assert!(lineage.members.is_empty());
    assert_eq!(lineage.edges.pairs(), vec![(30, 20)]);
    assert_eq!(lineage.last_snapshot_at, Some(55));

    let mut uncertain = CaptureOutcome::empty();
    uncertain.uncertain_lineage.insert(30);
    lineage.observe_capture(&uncertain, START + 4_000, 5_000);
    assert_eq!(lineage.active_anchors(), BTreeSet::from([20, 30]));
    assert_eq!(lineage.members, BTreeSet::from([30]));
    assert_eq!(lineage.anchors.get(&20), Some(&(START + 4_000)));
    assert_eq!(lineage.last_snapshot_at, Some(55));
    assert!(!lineage.is_empty());

    lineage.prune(START + 9_000, 5_000);
    assert!(lineage.is_empty());
    lineage.clear();
    assert_eq!(lineage.last_snapshot_at, None);
}

#[test]
fn self_parent_and_zero_edges_never_extend_lineage() {
    let entries = [(0, 10), (10, 10), (11, 10)];
    assert_eq!(
        lineage_process_ids(&entries, &BTreeSet::from([10])),
        BTreeSet::from([10, 11])
    );
}

#[test]
fn open_failure_with_invalid_parameter_is_pid_reuse() {
    assert!(matches!(
        classify_snapshot_open_failure(Some(87), true),
        SnapshotProcess::ReusedAfterSnapshot
    ));
}
