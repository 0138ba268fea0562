//! Process lineage bookkeeping for the owned descendant tree of an isolated host.
//!
//! A process snapshot is a sequence of `(pid, parent_pid)` edges. The lineage of a set of
//! root pids is the least set that contains the roots and every pid whose parent is in it.

use std::collections::BTreeSet;
use vstd::prelude::*;
use vstd::std_specs::iter::IteratorSpec;

verus! {

broadcast use vstd::std_specs::btree::group_btree_axioms;

/// An edge of a process snapshot takes part in lineage only when the pid is real and is
/// not its own parent.
pub open spec fn lineage_edge(edge: (u32, u32)) -> bool {
    edge.0 != 0 && edge.0 != edge.1
}

/// One round of lineage growth: `current` together with every child whose parent is in it.
pub open spec fn lineage_step(entries: Seq<(u32, u32)>, current: Set<u32>) -> Set<u32> {
    current.union(
        Set::new(
            |pid: u32|
                exists|i: int|
                    #![trigger entries[i]]
                    0 <= i < entries.len() && entries[i].0 == pid && lineage_edge(entries[i])
                        && current.contains(entries[i].1),
        ),
    )
}

/// The pids reached from `roots` within `depth` rounds.
pub open spec fn lineage_within(entries: Seq<(u32, u32)>, roots: Set<u32>, depth: nat) -> Set<u32>
    decreases depth,
{
    if depth == 0 {
        roots
    } else {
        lineage_step(entries, lineage_within(entries, roots, (depth - 1) as nat))
    }
}

/// The lineage of `roots`: every pid reached from them in some number of rounds.
pub open spec fn lineage(entries: Seq<(u32, u32)>, roots: Set<u32>) -> Set<u32> {
    Set::new(|pid: u32| exists|depth: nat| #[trigger] lineage_within(entries, roots, depth).contains(pid))
}

/// A set that holds the roots and is closed under the edges holds the whole lineage.
pub proof fn lemma_closed_set_holds_lineage(entries: Seq<(u32, u32)>, roots: Set<u32>, closed: Set<u32>)
    requires
        roots.subset_of(closed),
        forall|i: int|
            0 <= i < entries.len() && lineage_edge(entries[i]) && closed.contains(#[trigger] entries[i].1)
                ==> closed.contains(entries[i].0),
    ensures
        lineage(entries, roots).subset_of(closed),
{
    assert forall|pid: u32| lineage(entries, roots).contains(pid) implies closed.contains(pid) by {
        let depth = choose|depth: nat| #[trigger] lineage_within(entries, roots, depth).contains(pid);
        lemma_within_subset_of_closed(entries, roots, closed, depth);
    }
}

proof fn lemma_within_subset_of_closed(
    entries: Seq<(u32, u32)>,
    roots: Set<u32>,
    closed: Set<u32>,
    depth: nat,
)
    requires
        roots.subset_of(closed),
        forall|i: int|
            0 <= i < entries.len() && lineage_edge(entries[i]) && closed.contains(#[trigger] entries[i].1)
                ==> closed.contains(entries[i].0),
    ensures
        lineage_within(entries, roots, depth).subset_of(closed),
    decreases depth,
{
    if depth > 0 {
        lemma_within_subset_of_closed(entries, roots, closed, (depth - 1) as nat);
    }
}

/// Every pid of a round-`depth` set is in the lineage.
proof fn lemma_within_in_lineage(entries: Seq<(u32, u32)>, roots: Set<u32>, depth: nat, pid: u32)
    requires
        lineage_within(entries, roots, depth).contains(pid),
    ensures
        lineage(entries, roots).contains(pid),
{
}

/// The lineage is closed: a child of a lineage member is a lineage member.
pub proof fn lemma_lineage_closed(entries: Seq<(u32, u32)>, roots: Set<u32>, i: int)
    requires
        0 <= i < entries.len(),
        lineage_edge(entries[i]),
        lineage(entries, roots).contains(entries[i].1),
    ensures
        lineage(entries, roots).contains(entries[i].0),
{
    let depth = choose|depth: nat| #[trigger] lineage_within(entries, roots, depth).contains(entries[i].1);
    assert(lineage_within(entries, roots, depth + 1).contains(entries[i].0));
}

/// The lineage always holds its roots.
pub proof fn lemma_lineage_holds_roots(entries: Seq<(u32, u32)>, roots: Set<u32>)
    ensures
        roots.subset_of(lineage(entries, roots)),
{
    assert forall|pid: u32| roots.contains(pid) implies lineage(entries, roots).contains(pid) by {
        assert(lineage_within(entries, roots, 0).contains(pid));
    }
}

/// Every lineage member is a root or the child of some edge.
proof fn lemma_lineage_members_are_roots_or_children(
    entries: Seq<(u32, u32)>,
    roots: Set<u32>,
    depth: nat,
)
    ensures
        lineage_within(entries, roots, depth).subset_of(roots.union(child_pids(entries))),
    decreases depth,
{
    if depth > 0 {
        lemma_lineage_members_are_roots_or_children(entries, roots, (depth - 1) as nat);
        let previous = lineage_within(entries, roots, (depth - 1) as nat);
        assert forall|pid: u32| lineage_within(entries, roots, depth).contains(pid) implies roots.union(
            child_pids(entries),
        ).contains(pid) by {
            if !previous.contains(pid) {
                let i = choose|i: int|
                    #![trigger entries[i]]
                    0 <= i < entries.len() && entries[i].0 == pid && lineage_edge(entries[i])
                        && previous.contains(entries[i].1);
                lemma_child_pid_member(entries, i);
            }
        }
    }
}

/// The child pids named by a snapshot.
pub open spec fn child_pids(entries: Seq<(u32, u32)>) -> Set<u32> {
    entries.map_values(|edge: (u32, u32)| edge.0).to_set()
}

proof fn lemma_child_pids_len(entries: Seq<(u32, u32)>)
    ensures
        child_pids(entries).finite(),
        child_pids(entries).len() <= entries.len(),
{
    entries.map_values(|edge: (u32, u32)| edge.0).lemma_cardinality_of_set();
    vstd::seq_lib::seq_to_set_is_finite(entries.map_values(|edge: (u32, u32)| edge.0));
}

proof fn lemma_child_pid_member(entries: Seq<(u32, u32)>, i: int)
    requires
        0 <= i < entries.len(),
    ensures
        child_pids(entries).contains(entries[i].0),
{
    let mapped = entries.map_values(|edge: (u32, u32)| edge.0);
    assert(mapped[i] == entries[i].0);
    assert(mapped.contains(entries[i].0));
    assert(mapped.to_set().contains(entries[i].0));
}

/// The contents of a `BTreeSet` form a finite set.
pub proof fn lemma_btree_set_finite(set: &BTreeSet<u32>)
    ensures
        set@.finite(),
{
    let keys = vstd::std_specs::btree::spec_btree_keys_iter(set).remaining().unref();
    assert(keys.to_set() == set@);
    vstd::seq_lib::seq_to_set_is_finite(keys);
}

/// Computes the lineage of `roots` over the snapshot `entries`.
pub fn lineage_process_ids(entries: &[(u32, u32)], roots: &BTreeSet<u32>) -> (result: BTreeSet<u32>)
    ensures
        result@ == lineage(entries@, roots@),
{
    let ghost bound_set = roots@.union(child_pids(entries@));
    proof {
        lemma_lineage_holds_roots(entries@, roots@);
        lemma_child_pids_len(entries@);
        lemma_btree_set_finite(roots);
        vstd::set_lib::lemma_len_union(roots@, child_pids(entries@));
    }
    let mut descendants = roots.clone();
    loop
        invariant
            roots@.subset_of(descendants@),
            descendants@.subset_of(lineage(entries@, roots@)),
            descendants@.subset_of(bound_set),
            bound_set == roots@.union(child_pids(entries@)),
            bound_set.finite(),
            bound_set.len() <= roots@.len() + entries@.len(),
        decreases bound_set.len() - descendants@.len(),
    {
        let previous_len = descendants.len();
        let ghost start = descendants@;
        for index in 0..entries.len()
            invariant
                start.subset_of(descendants@),
                roots@.subset_of(descendants@),
                descendants@.subset_of(lineage(entries@, roots@)),
                descendants@.subset_of(bound_set),
                bound_set == roots@.union(child_pids(entries@)),
                bound_set.finite(),
                previous_len == start.len(),
                start.finite(),
                forall|j: int|
                    0 <= j < index && lineage_edge(entries@[j]) && start.contains(#[trigger] entries@[j].1)
                        ==> descendants@.contains(entries@[j].0),
        {
            let (pid, parent_pid) = entries[index];
            if pid != 0 && pid != parent_pid && descendants.contains(&parent_pid) {
                proof {
                    lemma_lineage_closed(entries@, roots@, index as int);
                    lemma_child_pid_member(entries@, index as int);
                }
                descendants.insert(pid);
            }
        }
        proof {
            vstd::set_lib::lemma_len_subset(descendants@, bound_set);
        }
        if descendants.len() == previous_len {
            proof {
                vstd::set_lib::lemma_subset_equality(start, descendants@);
                lemma_closed_set_holds_lineage(entries@, roots@, descendants@);
            }
            return descendants;
        }
        proof {
            vstd::set_lib::lemma_len_subset(start, descendants@);
        }
    }
}


/// The pids of the edges of `current`, that is the processes present in it.
pub open spec fn present_pids(current: Seq<(u32, u32)>) -> Set<u32> {
    child_pids(current)
}

/// The uncertain lineage: the lineage of `roots` over `topology`, kept only where the
/// pid is present in `current`, and where a root is kept only when it is a member.
pub open spec fn uncertain_lineage(
    topology: Seq<(u32, u32)>,
    current: Seq<(u32, u32)>,
    roots: Set<u32>,
    members: Set<u32>,
) -> Set<u32> {
    lineage(topology, roots).filter(
        |pid: u32| present_pids(current).contains(pid) && (!roots.contains(pid) || members.contains(pid)),
    )
}

/// Collects the pids named by `entries`.
fn present_process_ids(entries: &[(u32, u32)]) -> (result: BTreeSet<u32>)
    ensures
        result@ == present_pids(entries@),
{
    let mut present = BTreeSet::new();
    for index in 0..entries.len()
        invariant
            forall|pid: u32|
                present@.contains(pid) <==> exists|j: int|
                    #![trigger entries@[j]]
                    0 <= j < index && entries@[j].0 == pid,
    {
        present.insert(entries[index].0);
    }
    proof {
        let mapped = entries@.map_values(|edge: (u32, u32)| edge.0);
        assert forall|pid: u32| present@.contains(pid) <==> present_pids(entries@).contains(pid) by {
            if present@.contains(pid) {
                let j = choose|j: int| #![trigger entries@[j]] 0 <= j < entries@.len() && entries@[j].0 == pid;
                lemma_child_pid_member(entries@, j);
            }
            if present_pids(entries@).contains(pid) {
                let j = choose|j: int| 0 <= j < mapped.len() && mapped[j] == pid;
                assert(entries@[j].0 == pid);
            }
        }
        assert(present@ =~= present_pids(entries@));
    }
    present
}

/// Computes the uncertain lineage of `roots`.
pub fn uncertain_lineage_process_ids(
    topology_entries: &[(u32, u32)],
    current_entries: &[(u32, u32)],
    roots: &BTreeSet<u32>,
    members: &BTreeSet<u32>,
) -> (result: BTreeSet<u32>)
    ensures
        result@ == uncertain_lineage(topology_entries@, current_entries@, roots@, members@),
{
    let present = present_process_ids(current_entries);
    let candidates = lineage_process_ids(topology_entries, roots);
    let mut uncertain = BTreeSet::new();
    let ghost keys = vstd::std_specs::btree::spec_btree_keys_iter(&candidates).remaining();
    for pid in it: candidates.iter()
        invariant
            it.seq() == keys,
            forall|p: u32|
                uncertain@.contains(p) ==> candidates@.contains(p) && present@.contains(p) && (
                !roots@.contains(p) || members@.contains(p)),
            forall|j: int|
                0 <= j < it.index() && present@.contains(*it.seq()[j]) && (!roots@.contains(
                    *it.seq()[j],
                ) || members@.contains(*it.seq()[j])) ==> uncertain@.contains(*it.seq()[j]),
            it.seq().unref().to_set() == candidates@,
    {
        proof {
            assert(it.seq().unref().contains(*pid));
        }
        if present.contains(pid) && (!roots.contains(pid) || members.contains(pid)) {
            uncertain.insert(*pid);
        }
    }
    proof {
        assert forall|p: u32|
            candidates@.contains(p) && present@.contains(p) && (!roots@.contains(p) || members@.contains(
                p,
            )) implies uncertain@.contains(p) by {
            assert(keys.unref().to_set().contains(p));
            let j = choose|j: int| 0 <= j < keys.unref().len() && keys.unref()[j] == p;
            assert(*keys[j] == p);
        }
        assert(uncertain@ =~= uncertain_lineage(topology_entries@, current_entries@, roots@, members@));
    }
    uncertain
}


/// How long, in milliseconds, the descendant tree must stay empty before cleanup succeeds.
pub const DESCENDANT_QUIESCENCE_DURATION: u64 = 5000;

/// How long, in milliseconds, cleanup on drop may take.
pub const DROP_DESCENDANT_TIMEOUT: u64 = 10000;

/// The Windows error code reported when a pid no longer names the process it named.
pub const ERROR_INVALID_PARAMETER: i32 = 87;

/// The creation time, and the exit time once it has exited, of one process generation.
/// Times are Windows file times.
#[derive(Clone, Copy, Debug, PartialEq, Eq)]
pub struct ProcessGeneration {
    pub created_at: u64,
    pub exited_at: Option<u64>,
}

/// Whether a process created at `child_created_at` could be a child of `parent`, seen in a
/// snapshot taken at `snapshot_at`.
pub open spec fn generation_can_parent(parent: ProcessGeneration, child_created_at: u64, snapshot_at: u64) -> bool {
    &&& child_created_at >= parent.created_at
    &&& child_created_at <= snapshot_at
    &&& match parent.exited_at {
        None => true,
        Some(exited_at) => child_created_at < exited_at,
    }
}

impl ProcessGeneration {
    pub fn can_parent(self, child_created_at: u64, snapshot_at: u64) -> (result: bool)
        ensures
            result == generation_can_parent(self, child_created_at, snapshot_at),
    {
        child_created_at >= self.created_at && child_created_at <= snapshot_at && match self.exited_at {
            None => true,
            Some(exited_at) => child_created_at < exited_at,
        }
    }
}

/// A process identified by pid and creation time, which tells pid reuse apart.
#[derive(Clone, Copy, Debug, PartialEq, Eq, PartialOrd, Ord)]
pub struct ProcessIdentity {
    pub pid: u32,
    pub created_at: u64,
}

/// A tracked generation can parent others when it has a creation time and, if it exited,
/// exited no earlier than it was created.
pub open spec fn is_parent_candidate(generation: ProcessGeneration) -> bool {
    generation.created_at != 0 && match generation.exited_at {
        None => true,
        Some(exited_at) => exited_at >= generation.created_at,
    }
}

pub fn tracked_generation_is_parent_candidate(generation: ProcessGeneration) -> (result: bool)
    ensures
        result == is_parent_candidate(generation),
{
    generation.created_at != 0 && match generation.exited_at {
        None => true,
        Some(exited_at) => exited_at >= generation.created_at,
    }
}

/// A snapshot entry is retried in a later round exactly when its generation did not match.
pub fn descendant_entry_needs_retry(parent_pid_known: bool, generation_matched: bool) -> (result: bool)
    ensures
        result == !generation_matched,
{
    !generation_matched
}

/// An unresolved entry needs a temporary lineage anchor exactly when its parent is known.
pub fn unresolved_descendant_requires_lineage_anchor(parent_pid_known: bool) -> (result: bool)
    ensures
        result == parent_pid_known,
{
    parent_pid_known
}

/// A process belongs to a snapshot only when it was created strictly before it; equality is
/// treated as pid reuse.
pub fn snapshot_generation_precedes_capture(created_at: u64, snapshot_at: u64) -> (result: bool)
    ensures
        result == (created_at < snapshot_at),
{
    created_at < snapshot_at
}

/// Why process bookkeeping failed closed.
#[derive(Debug, Clone, Copy, PartialEq, Eq)]
pub enum LineageError {
    /// The system clock moved backwards while a snapshot was taken.
    ClockMovedBackwardsDuringSnapshot,
    /// The system clock moved backwards between two snapshots.
    ClockMovedBackwardsBetweenSnapshots,
}

pub fn validate_snapshot_clock(snapshot_at: u64, observed_at: u64) -> (result: Result<(), LineageError>)
    ensures
        result is Ok <==> observed_at >= snapshot_at,
        result is Err ==> result == Err::<(), LineageError>(LineageError::ClockMovedBackwardsDuringSnapshot),
{
    if observed_at < snapshot_at {
        return Err(LineageError::ClockMovedBackwardsDuringSnapshot);
    }
    Ok(())
}

pub fn validate_snapshot_progress(previous_snapshot_at: Option<u64>, snapshot_at: u64) -> (result: Result<(), LineageError>)
    ensures
        result is Ok <==> match previous_snapshot_at {
            None => true,
            Some(previous) => snapshot_at >= previous,
        },
        result is Err ==> result == Err::<(), LineageError>(LineageError::ClockMovedBackwardsBetweenSnapshots),
{
    if let Some(previous) = previous_snapshot_at {
        if snapshot_at < previous {
            return Err(LineageError::ClockMovedBackwardsBetweenSnapshots);
        }
    }
    Ok(())
}

/// What became of a snapshot entry that the capture tried to open.
#[derive(Debug, Clone, Copy, PartialEq, Eq)]
pub enum SnapshotProcess {
    Opened(ProcessIdentity),
    Inaccessible { error_code: Option<i32> },
    VanishedBeforeOpen,
    ReusedAfterSnapshot,
}

/// Only a live process that could not be opened leaves its identity uncertain.
pub fn snapshot_process_requires_uncertainty(process: &SnapshotProcess) -> (result: bool)
    ensures
        result == (*process is Inaccessible),
{
    match process {
        SnapshotProcess::Inaccessible { .. } => true,
        _ => false,
    }
}

/// A process that vanished or whose pid was reused becomes a temporary lineage anchor.
pub fn snapshot_process_requires_lineage_anchor(process: &SnapshotProcess) -> (result: bool)
    ensures
        result == (*process is VanishedBeforeOpen || *process is ReusedAfterSnapshot),
{
    match process {
        SnapshotProcess::VanishedBeforeOpen | SnapshotProcess::ReusedAfterSnapshot => true,
        _ => false,
    }
}

/// Classifies a failure to open a snapshot process, given whether a second snapshot still
/// shows it.
pub fn classify_snapshot_open_failure(error_code: Option<i32>, process_still_present: bool) -> (result: SnapshotProcess)
    ensures
        result == (if !process_still_present {
            SnapshotProcess::VanishedBeforeOpen
        } else if error_code == Some(ERROR_INVALID_PARAMETER) {
            SnapshotProcess::ReusedAfterSnapshot
        } else {
            SnapshotProcess::Inaccessible { error_code }
        }),
{
    if !process_still_present {
        SnapshotProcess::VanishedBeforeOpen
    } else if error_code == Some(ERROR_INVALID_PARAMETER) {
        SnapshotProcess::ReusedAfterSnapshot
    } else {
        SnapshotProcess::Inaccessible { error_code }
    }
}

} // verus!
