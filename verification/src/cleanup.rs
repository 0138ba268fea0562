//! Cleanup of a launched tree's descendants: the decisions between captures. The caller
//! captures, terminates what is tracked, waits and reports what is still running; this
//! machine says when cleanup has succeeded, failed or run out of time.

use std::collections::{BTreeMap, BTreeSet};
use vstd::prelude::*;
use vstd::std_specs::iter::IteratorSpec;

use crate::lineage_state::{
    capture_observed, fresh_entries, insert_all, CaptureOutcome, DescendantQuiescence, LineageCaptureInput, LineageObservationState,
    elapsed_since,
};

verus! {

broadcast use vstd::std_specs::btree::group_btree_axioms;

/// What a capture reported: what it observed, or why the process snapshot failed.
pub enum CaptureReport {
    Captured(CaptureOutcome),
    SnapshotFailed(String),
}

/// A capture that leaves nothing to wait for: it succeeded, added no process, and found no
/// inaccessible process, lineage anchor or uncertain lineage.
pub open spec fn capture_quiet(report: &CaptureReport) -> bool {
    match report {
        CaptureReport::Captured(capture) => {
            &&& capture.added == 0
            &&& capture.inaccessible@.is_empty()
            &&& capture.lineage_anchors@.is_empty()
            &&& capture.uncertain_lineage@.is_empty()
        },
        CaptureReport::SnapshotFailed(_) => false,
    }
}

/// Whether a capture leaves nothing to wait for.
pub fn capture_is_quiet(report: &CaptureReport) -> (result: bool)
    ensures
        result == capture_quiet(report),
{
    match report {
        CaptureReport::Captured(capture) => capture.added == 0 && capture.inaccessible.is_empty()
            && capture.lineage_anchors.is_empty() && capture.uncertain_lineage.is_empty(),
        CaptureReport::SnapshotFailed(_) => false,
    }
}

/// How a round of cleanup ended.
#[derive(Debug, Clone, PartialEq, Eq)]
pub enum CleanupStep {
    /// Capture again.
    Continue,
    /// The tree stayed empty for the whole quiescence duration and nothing was uncertain.
    Succeeded,
    /// The tree became quiet, but a snapshot failed or a process was inaccessible on the
    /// way.
    Failed,
    /// The deadline passed.
    TimedOut,
}

/// The state of one cleanup: its deadline, the quiescence it waits for, and the first
/// snapshot failure and inaccessible processes it met.
pub struct DescendantCleanup {
    pub deadline: u64,
    pub quiescence: DescendantQuiescence,
    pub first_capture_error: Option<String>,
    pub first_inaccessible: BTreeSet<u32>,
    pub first_inaccessible_details: BTreeMap<u32, String>,
}

fn extend_details(target: &mut BTreeMap<u32, String>, more: &BTreeMap<u32, String>)
    ensures
        final(target)@ == old(target)@.union_prefer_right(more@),
{
    let ghost start = target@;
    let ghost keys = vstd::std_specs::btree::spec_keys_iter(more).remaining();
    for pid in it: more.keys()
        invariant
            it.seq() == keys,
            keys.unref().to_set() == more@.dom(),
            forall|p: u32|
                #[trigger] target@.contains_key(p) <==> start.contains_key(p) || exists|j: int|
                    0 <= j < it.index() && *keys[j] == p,
            forall|p: u32| #[trigger]
                target@.contains_key(p) ==> target@[p] == if exists|j: int| 0 <= j < it.index() && *keys[j] == p {
                    more@[p]
                } else {
                    start[p]
                },
    {
        proof {
            assert(keys.unref()[it.index() as int] == *pid);
            assert(keys.unref().contains(*pid));
            assert(more@.contains_key(*pid));
        }
        match more.get(pid) {
            Some(detail) => {
                target.insert(*pid, detail.clone());
            },
            None => {},
        }
    }
    proof {
        assert forall|p: u32| more@.contains_key(p) implies exists|j: int| 0 <= j < keys.len() && *keys[j] == p by {
            assert(keys.unref().to_set().contains(p));
            let j = choose|j: int| 0 <= j < keys.unref().len() && keys.unref()[j] == p;
            assert(*keys[j] == p);
        }
        assert forall|p: u32| (exists|j: int| 0 <= j < keys.len() && *keys[j] == p) implies more@.contains_key(p) by {
            let j = choose|j: int| 0 <= j < keys.len() && *keys[j] == p;
            assert(keys.unref()[j] == p);
            assert(keys.unref().contains(p));
        }
        assert(target@ =~= start.union_prefer_right(more@));
    }
}

impl DescendantCleanup {
    /// A cleanup that must finish before `deadline` and waits for `duration` of quiet.
    pub fn new(deadline: u64, duration: u64) -> (result: Self)
        ensures
            result.deadline == deadline,
            result.quiescence.duration == duration,
            result.quiescence.stable_empty_since is None,
            result.first_capture_error is None,
            result.first_inaccessible@.is_empty(),
            result.first_inaccessible_details@.is_empty(),
    {
        DescendantCleanup {
            deadline,
            quiescence: DescendantQuiescence::new(duration),
            first_capture_error: None,
            first_inaccessible: BTreeSet::new(),
            first_inaccessible_details: BTreeMap::new(),
        }
    }

    /// Starts a round at `now`: none once the deadline has passed; otherwise the lineage
    /// observations that the capture starts from, pruned at `now`.
    pub fn begin_capture(&self, lineage: &mut LineageObservationState, now: u64) -> (result: Option<LineageCaptureInput>)
        ensures
            now >= self.deadline ==> result is None && *final(lineage) == *old(lineage),
            now < self.deadline ==> {
                &&& result matches Some(input)
                &&& final(lineage).anchors@ == fresh_entries(old(lineage).anchors@, now, self.quiescence.duration)
                &&& final(lineage).members@ == old(lineage).members@.filter(
                    |pid: u32| fresh_entries(old(lineage).anchors@, now, self.quiescence.duration).contains_key(pid),
                )
                &&& final(lineage).edges.edges@ == fresh_entries(old(lineage).edges.edges@, now, self.quiescence.duration)
                &&& final(lineage).last_snapshot_at == old(lineage).last_snapshot_at
                &&& input.anchors@ == final(lineage).anchors@.dom()
                &&& input.members@ == final(lineage).members@
                &&& input.edges@.to_set() == final(lineage).edges.edges@.dom()
                &&& input.previous_snapshot_at == old(lineage).last_snapshot_at
            },
    {
        if now >= self.deadline {
            return None;
        }
        Some(lineage.capture_input(now, self.quiescence.duration))
    }

    /// Records a capture made at `captured_at`: the first snapshot failure is kept; a
    /// successful capture is observed by the lineage and its inaccessible processes are
    /// remembered.
    pub fn record_capture(&mut self, lineage: &mut LineageObservationState, report: &CaptureReport, captured_at: u64)
        ensures
            final(self).deadline == old(self).deadline,
            final(self).quiescence == old(self).quiescence,
            final(self).first_capture_error == match (old(self).first_capture_error, report) {
                (None, CaptureReport::SnapshotFailed(message)) => Some(*message),
                (kept, _) => kept,
            },
            match report {
                CaptureReport::Captured(capture) => {
                    &&& capture_observed(old(lineage), final(lineage), capture, captured_at, old(self).quiescence.duration)
                    &&& final(self).first_inaccessible@ == old(self).first_inaccessible@.union(capture.inaccessible@)
                    &&& final(self).first_inaccessible_details@ == old(self).first_inaccessible_details@.union_prefer_right(
                        capture.inaccessible_details@,
                    )
                },
                CaptureReport::SnapshotFailed(_) => {
                    &&& final(self).first_inaccessible@ == old(self).first_inaccessible@
                    &&& final(self).first_inaccessible_details@ == old(self).first_inaccessible_details@
                    &&& *final(lineage) == *old(lineage)
                },
            },
    {
        match report {
            CaptureReport::Captured(capture) => {
                lineage.observe_capture(capture, captured_at, self.quiescence.duration);
                insert_all(&mut self.first_inaccessible, &capture.inaccessible);
                extend_details(&mut self.first_inaccessible_details, &capture.inaccessible_details);
            },
            CaptureReport::SnapshotFailed(message) => {
                if self.first_capture_error.is_none() {
                    self.first_capture_error = Some(message.clone());
                }
            },
        }
    }

    /// Ends a round at `observed_at`, after the tracked processes were terminated and
    /// `live` of them were found still running: past the deadline it times out; otherwise
    /// the lineage is pruned, and once the tree has been quiet (a quiet capture and nothing
    /// live) for the whole duration with no lineage left, cleanup succeeds, or fails when a
    /// snapshot failed or a process was inaccessible on the way.
    pub fn settle(
        &mut self,
        lineage: &mut LineageObservationState,
        capture_quiet: bool,
        live: usize,
        observed_at: u64,
    ) -> (result: CleanupStep)
        ensures
            final(self).deadline == old(self).deadline,
            final(self).first_capture_error == old(self).first_capture_error,
            final(self).first_inaccessible@ == old(self).first_inaccessible@,
            final(self).first_inaccessible_details@ == old(self).first_inaccessible_details@,
            final(self).quiescence.duration == old(self).quiescence.duration,
            observed_at >= old(self).deadline ==> result == CleanupStep::TimedOut && *final(lineage) == *old(lineage),
            observed_at < old(self).deadline ==> {
                let quiet = capture_quiet && live == 0;
                let since = match old(self).quiescence.stable_empty_since {
                    Some(since) => since,
                    None => observed_at,
                };
                let stable = quiet && elapsed_since(observed_at, since) >= old(self).quiescence.duration;
                let settled = stable && final(lineage).anchors@.is_empty() && final(lineage).members@.is_empty();
                &&& final(lineage).anchors@ == fresh_entries(old(lineage).anchors@, observed_at, old(self).quiescence.duration)
                &&& final(lineage).members@ == old(lineage).members@.filter(
                    |pid: u32|
                        fresh_entries(old(lineage).anchors@, observed_at, old(self).quiescence.duration).contains_key(
                            pid,
                        ),
                )
                &&& final(lineage).edges.edges@ == fresh_entries(
                    old(lineage).edges.edges@,
                    observed_at,
                    old(self).quiescence.duration,
                )
                &&& final(self).quiescence.stable_empty_since == if quiet {
                    Some(since)
                } else {
                    None
                }
                &&& result == if !settled {
                    CleanupStep::Continue
                } else if old(self).first_capture_error is Some || !old(self).first_inaccessible@.is_empty() {
                    CleanupStep::Failed
                } else {
                    CleanupStep::Succeeded
                }
            },
    {
        if observed_at >= self.deadline {
            return CleanupStep::TimedOut;
        }
        lineage.prune(observed_at, self.quiescence.duration);
        let quiet = capture_quiet && live == 0;
        let stable = self.quiescence.observe(observed_at, quiet);
        if !(stable && lineage.is_empty()) {
            return CleanupStep::Continue;
        }
        if self.first_capture_error.is_some() || !self.first_inaccessible.is_empty() {
            CleanupStep::Failed
        } else {
            CleanupStep::Succeeded
        }
    }
}

} // verus!
