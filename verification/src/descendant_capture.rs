//! Matching the entries of a process snapshot to the followed descendant tree. Entries are
//! taken in rounds: an entry whose parent is a matched generation joins the tree when its
//! own generation could have been created by that parent; one whose parent is not matched
//! yet waits for the next round. A live generation already followed is used as it is;
//! otherwise the process is opened, which the caller does and reports. Rounds go on while
//! one matched something; then every entry still waiting under a known parent becomes a
//! visible lineage anchor. Each decision is one step from the state and what the caller
//! reported.

use vstd::prelude::*;

use crate::lineage::{
    classify_snapshot_open_failure, descendant_entry_needs_retry, generation_can_parent,
    snapshot_generation_precedes_capture, snapshot_process_requires_lineage_anchor,
    snapshot_process_requires_uncertainty, unresolved_descendant_requires_lineage_anchor, ProcessGeneration,
    ProcessIdentity, SnapshotProcess, ERROR_INVALID_PARAMETER,
};

verus! {

/// Where a capture stands.
pub struct CaptureState {
    /// When the snapshot was taken.
    pub snapshot_at: u64,
    /// The entries (pid, parent pid) of this round.
    pub pending: Vec<(u32, u32)>,
    /// The next entry of this round to look at.
    pub cursor: usize,
    /// The entries that wait for the next round.
    pub remaining: Vec<(u32, u32)>,
    /// Whether this round matched an entry.
    pub advanced: bool,
    /// The generations that can parent others: the followed ones and those matched.
    pub generations: Vec<(u32, ProcessGeneration)>,
    /// The generations of the processes already followed.
    pub existing: Vec<(u32, ProcessGeneration)>,
    /// Processes that could not be opened though they live.
    pub inaccessible: Vec<u32>,
    /// Processes that become temporary lineage anchors.
    pub anchors: Vec<u32>,
    /// Entries left under a known parent when the rounds ended.
    pub visible_anchors: Vec<u32>,
    /// How many processes the capture adds to the tree.
    pub added: usize,
    /// Whether the current entry waits for the caller to open it.
    pub opening: bool,
    /// Whether the rounds have ended.
    pub finished: bool,
}

/// The state as values.
pub ghost struct CaptureView {
    pub snapshot_at: u64,
    pub pending: Seq<(u32, u32)>,
    pub cursor: int,
    pub remaining: Seq<(u32, u32)>,
    pub advanced: bool,
    pub generations: Seq<(u32, ProcessGeneration)>,
    pub existing: Seq<(u32, ProcessGeneration)>,
    pub inaccessible: Seq<u32>,
    pub anchors: Seq<u32>,
    pub visible_anchors: Seq<u32>,
    pub added: int,
    pub opening: bool,
    pub finished: bool,
}

pub open spec fn capture_view(state: &CaptureState) -> CaptureView {
    CaptureView {
        snapshot_at: state.snapshot_at,
        pending: state.pending@,
        cursor: state.cursor as int,
        remaining: state.remaining@,
        advanced: state.advanced,
        generations: state.generations@,
        existing: state.existing@,
        inaccessible: state.inaccessible@,
        anchors: state.anchors@,
        visible_anchors: state.visible_anchors@,
        added: state.added as int,
        opening: state.opening,
        finished: state.finished,
    }
}

/// What the caller reports.
#[derive(Debug, Clone, Copy, PartialEq, Eq)]
pub enum CaptureEvent {
    /// Nothing: the last action needed no outside work.
    Continue,
    /// The process asked for was opened; this is its generation.
    Opened(ProcessGeneration),
    /// The process asked for could not be opened: the error, and whether a second
    /// snapshot still shows it.
    OpenFailed { error_code: Option<i32>, still_present: bool },
}

/// What the caller does next.
#[derive(Debug, Clone, Copy, PartialEq, Eq)]
pub enum CaptureAction {
    /// Step again with `Continue`.
    Continue,
    /// Open this process and report the outcome.
    Open(u32),
    /// Keep the process just opened: it joins the tree as a new descendant.
    Keep(ProcessIdentity),
    /// Close the process just opened: it is followed already, or does not belong.
    Release,
    /// The rounds have ended.
    Finished,
    /// The event does not fit the state: nothing changes.
    Ignore,
}

/// Some matched generation has pid `pid`.
pub open spec fn parent_known(generations: Seq<(u32, ProcessGeneration)>, pid: u32) -> bool {
    exists|i: int| 0 <= i < generations.len() && (#[trigger] generations[i]).0 == pid
}

/// A matched generation of `parent` could have created a process at `created_at`.
pub open spec fn belongs(generations: Seq<(u32, ProcessGeneration)>, parent: u32, created_at: u64, snapshot_at: u64) -> bool {
    exists|i: int|
        0 <= i < generations.len() && (#[trigger] generations[i]).0 == parent && generation_can_parent(
            generations[i].1,
            created_at,
            snapshot_at,
        )
}

/// The first followed generation of `pid` that still lived when the snapshot was taken.
pub open spec fn live_tracked(existing: Seq<(u32, ProcessGeneration)>, pid: u32, snapshot_at: u64) -> Option<ProcessGeneration>
    decreases existing.len(),
{
    if existing.len() == 0 {
        None
    } else if existing[0].0 == pid && match existing[0].1.exited_at {
        None => true,
        Some(exited_at) => exited_at >= snapshot_at,
    } {
        Some(existing[0].1)
    } else {
        live_tracked(existing.drop_first(), pid, snapshot_at)
    }
}

/// A generation of `pid` created at `created_at` is followed already.
pub open spec fn tracked_already(existing: Seq<(u32, ProcessGeneration)>, pid: u32, created_at: u64) -> bool {
    exists|i: int| 0 <= i < existing.len() && (#[trigger] existing[i]).0 == pid && existing[i].1.created_at == created_at
}

/// The pids of `entries` whose parent is known, in order.
pub open spec fn anchored_entries(entries: Seq<(u32, u32)>, generations: Seq<(u32, ProcessGeneration)>) -> Seq<u32>
    decreases entries.len(),
{
    if entries.len() == 0 {
        Seq::empty()
    } else if parent_known(generations, entries.last().1) {
        anchored_entries(entries.drop_last(), generations).push(entries.last().0)
    } else {
        anchored_entries(entries.drop_last(), generations)
    }
}

/// The next entry is done with: the cursor moves on and nothing waits to be opened.
pub open spec fn moved_on(s: CaptureView) -> CaptureView {
    CaptureView { cursor: s.cursor + 1, opening: false, ..s }
}

/// The entry waits for the next round.
pub open spec fn retried(s: CaptureView, entry: (u32, u32)) -> CaptureView {
    CaptureView { remaining: s.remaining.push(entry), ..moved_on(s) }
}

/// The entry's generation is matched: it can parent later entries.
pub open spec fn matched(s: CaptureView, entry: (u32, u32), generation: ProcessGeneration) -> CaptureView {
    CaptureView { generations: s.generations.push((entry.0, generation)), advanced: true, ..moved_on(s) }
}

/// What an opened process, or a failed open, makes of the current entry.
pub open spec fn opened_outcome(s: CaptureView, entry: (u32, u32), generation: ProcessGeneration) -> (CaptureView, CaptureAction) {
    if !(generation.created_at < s.snapshot_at) {
        (CaptureView { anchors: s.anchors.push(entry.0), ..moved_on(s) }, CaptureAction::Release)
    } else if !belongs(s.generations, entry.1, generation.created_at, s.snapshot_at) {
        (retried(s, entry), CaptureAction::Release)
    } else if tracked_already(s.existing, entry.0, generation.created_at) {
        (matched(s, entry, generation), CaptureAction::Release)
    } else {
        (
            CaptureView { added: s.added + 1, ..matched(s, entry, generation) },
            CaptureAction::Keep(ProcessIdentity { pid: entry.0, created_at: generation.created_at }),
        )
    }
}

/// The classification of a failed open, as `classify_snapshot_open_failure` gives it.
pub open spec fn open_failure(error_code: Option<i32>, still_present: bool) -> SnapshotProcess {
    if !still_present {
        SnapshotProcess::VanishedBeforeOpen
    } else if error_code == Some(ERROR_INVALID_PARAMETER) {
        SnapshotProcess::ReusedAfterSnapshot
    } else {
        SnapshotProcess::Inaccessible { error_code }
    }
}

/// One step of the capture.
pub open spec fn capture_next(s: CaptureView, event: CaptureEvent) -> (CaptureView, CaptureAction) {
    if s.finished || s.cursor < 0 {
        (s, CaptureAction::Ignore)
    } else if s.opening {
        if s.cursor >= s.pending.len() {
            (s, CaptureAction::Ignore)
        } else {
            let entry = s.pending[s.cursor];
            match event {
                CaptureEvent::Opened(generation) => opened_outcome(s, entry, generation),
                CaptureEvent::OpenFailed { error_code, still_present } => {
                    let outcome = open_failure(error_code, still_present);
                    (
                        CaptureView {
                            inaccessible: if outcome is Inaccessible {
                                s.inaccessible.push(entry.0)
                            } else {
                                s.inaccessible
                            },
                            anchors: if outcome is VanishedBeforeOpen || outcome is ReusedAfterSnapshot {
                                s.anchors.push(entry.0)
                            } else {
                                s.anchors
                            },
                            ..moved_on(s)
                        },
                        CaptureAction::Continue,
                    )
                },
                CaptureEvent::Continue => (s, CaptureAction::Ignore),
            }
        }
    } else if !(event is Continue) {
        (s, CaptureAction::Ignore)
    } else if s.cursor >= s.pending.len() {
        if s.advanced {
            (
                CaptureView { pending: s.remaining, cursor: 0, remaining: Seq::empty(), advanced: false, ..s },
                CaptureAction::Continue,
            )
        } else {
            let late = anchored_entries(s.remaining, s.generations);
            (
                CaptureView {
                    anchors: s.anchors + late,
                    visible_anchors: s.visible_anchors + late,
                    finished: true,
                    ..s
                },
                CaptureAction::Finished,
            )
        }
    } else {
        let entry = s.pending[s.cursor];
        if !parent_known(s.generations, entry.1) {
            (retried(s, entry), CaptureAction::Continue)
        } else {
            match live_tracked(s.existing, entry.0, s.snapshot_at) {
                Some(generation) => if belongs(s.generations, entry.1, generation.created_at, s.snapshot_at) {
                    (matched(s, entry, generation), CaptureAction::Continue)
                } else {
                    (retried(s, entry), CaptureAction::Continue)
                },
                None => (CaptureView { opening: true, ..s }, CaptureAction::Open(entry.0)),
            }
        }
    }
}


fn parent_is_known(generations: &Vec<(u32, ProcessGeneration)>, pid: u32) -> (result: bool)
    ensures
        result == parent_known(generations@, pid),
{
    for i in 0..generations.len()
        invariant
            forall|j: int| 0 <= j < i ==> (#[trigger] generations@[j]).0 != pid,
    {
        if generations[i].0 == pid {
            proof {
                assert(generations@[i as int].0 == pid);
            }
            return true;
        }
    }
    false
}

fn belongs_to_parent(generations: &Vec<(u32, ProcessGeneration)>, parent: u32, created_at: u64, snapshot_at: u64) -> (result: bool)
    ensures
        result == belongs(generations@, parent, created_at, snapshot_at),
{
    for i in 0..generations.len()
        invariant
            forall|j: int|
                0 <= j < i ==> !((#[trigger] generations@[j]).0 == parent && generation_can_parent(
                    generations@[j].1,
                    created_at,
                    snapshot_at,
                )),
    {
        let (pid, generation) = generations[i];
        if pid == parent && generation.can_parent(created_at, snapshot_at) {
            proof {
                assert(generations@[i as int].0 == parent);
            }
            return true;
        }
    }
    false
}

fn find_live_tracked(existing: &Vec<(u32, ProcessGeneration)>, pid: u32, snapshot_at: u64) -> (result: Option<ProcessGeneration>)
    ensures
        result == live_tracked(existing@, pid, snapshot_at),
{
    proof {
        assert(existing@.skip(0) =~= existing@);
    }
    for i in 0..existing.len()
        invariant
            live_tracked(existing@, pid, snapshot_at) == live_tracked(existing@.skip(i as int), pid, snapshot_at),
    {
        proof {
            assert(existing@.skip(i as int)[0] == existing@[i as int]);
            assert(existing@.skip(i as int).drop_first() =~= existing@.skip(i + 1));
        }
        let (p, generation) = existing[i];
        let live = match generation.exited_at {
            None => true,
            Some(exited_at) => exited_at >= snapshot_at,
        };
        if p == pid && live {
            return Some(generation);
        }
    }
    proof {
        assert(existing@.skip(existing@.len() as int) =~= Seq::<(u32, ProcessGeneration)>::empty());
    }
    None
}

fn is_tracked_already(existing: &Vec<(u32, ProcessGeneration)>, pid: u32, created_at: u64) -> (result: bool)
    ensures
        result == tracked_already(existing@, pid, created_at),
{
    for i in 0..existing.len()
        invariant
            forall|j: int| 0 <= j < i ==> !((#[trigger] existing@[j]).0 == pid && existing@[j].1.created_at == created_at),
    {
        if existing[i].0 == pid && existing[i].1.created_at == created_at {
            proof {
                assert(existing@[i as int].0 == pid);
            }
            return true;
        }
    }
    false
}

fn late_anchors(remaining: &Vec<(u32, u32)>, generations: &Vec<(u32, ProcessGeneration)>) -> (result: Vec<u32>)
    ensures
        result@ == anchored_entries(remaining@, generations@),
{
    let mut out: Vec<u32> = Vec::new();
    for i in 0..remaining.len()
        invariant
            out@ == anchored_entries(remaining@.take(i as int), generations@),
    {
        proof {
            assert(remaining@.take(i + 1).drop_last() =~= remaining@.take(i as int));
            assert(remaining@.take(i + 1).last() == remaining@[i as int]);
        }
        let (pid, parent) = remaining[i];
        if unresolved_descendant_requires_lineage_anchor(parent_is_known(generations, parent)) {
            out.push(pid);
        }
    }
    proof {
        assert(remaining@.take(remaining@.len() as int) =~= remaining@);
    }
    out
}

fn append_all(target: &mut Vec<u32>, more: &Vec<u32>)
    ensures
        final(target)@ == old(target)@ + more@,
{
    let ghost start = target@;
    for i in 0..more.len()
        invariant
            target@ == start + more@.take(i as int),
    {
        target.push(more[i]);
        proof {
            assert(more@.take(i + 1) =~= more@.take(i as int).push(more@[i as int]));
        }
    }
    proof {
        assert(more@.take(more@.len() as int) =~= more@);
    }
}

/// The entries that a capture can match: neither the idle process nor one that names
/// itself its parent, nor one inside the active uncertain lineage.
pub open spec fn matchable(entries: Seq<(u32, u32)>, excluded: Seq<u32>) -> Seq<(u32, u32)>
    decreases entries.len(),
{
    if entries.len() == 0 {
        Seq::empty()
    } else {
        let e = entries.last();
        if e.0 != 0 && e.0 != e.1 && !excluded.contains(e.0) {
            matchable(entries.drop_last(), excluded).push(e)
        } else {
            matchable(entries.drop_last(), excluded)
        }
    }
}

/// The followed generations that can parent others.
pub open spec fn candidate_parents(generations: Seq<(u32, ProcessGeneration)>) -> Seq<(u32, ProcessGeneration)>
    decreases generations.len(),
{
    if generations.len() == 0 {
        Seq::empty()
    } else if crate::lineage::is_parent_candidate(generations.last().1) {
        candidate_parents(generations.drop_last()).push(generations.last())
    } else {
        candidate_parents(generations.drop_last())
    }
}

impl CaptureState {
    /// The start of a capture of the snapshot taken at `snapshot_at`, whose entries are
    /// `entries`, with `descendants` the generations of the followed descendants and `excluded`
    /// the active uncertain lineage.
    pub fn new(
        snapshot_at: u64,
        entries: &Vec<(u32, u32)>,
        excluded: &Vec<u32>,
        descendants: &Vec<(u32, ProcessGeneration)>,
    ) -> (result: Self)
        ensures
            capture_view(&result) == (CaptureView {
                snapshot_at,
                pending: matchable(entries@, excluded@),
                cursor: 0,
                remaining: Seq::empty(),
                advanced: false,
                generations: candidate_parents(descendants@),
                existing: descendants@,
                inaccessible: Seq::empty(),
                anchors: Seq::empty(),
                visible_anchors: Seq::empty(),
                added: 0,
                opening: false,
                finished: false,
            }),
    {
        let mut pending: Vec<(u32, u32)> = Vec::new();
        for i in 0..entries.len()
            invariant
                pending@ == matchable(entries@.take(i as int), excluded@),
        {
            proof {
                assert(entries@.take(i + 1).drop_last() =~= entries@.take(i as int));
                assert(entries@.take(i + 1).last() == entries@[i as int]);
            }
            let (pid, parent) = entries[i];
            let mut is_excluded = false;
            for j in 0..excluded.len()
                invariant
                    is_excluded == exists|t: int| 0 <= t < j && excluded@[t] == pid,
            {
                if excluded[j] == pid {
                    is_excluded = true;
                }
            }
            if pid != 0 && pid != parent && !is_excluded {
                pending.push((pid, parent));
            }
        }
        let mut generations: Vec<(u32, ProcessGeneration)> = Vec::new();
        let mut existing: Vec<(u32, ProcessGeneration)> = Vec::new();
        for i in 0..descendants.len()
            invariant
                generations@ == candidate_parents(descendants@.take(i as int)),
                existing@ == descendants@.take(i as int),
        {
            proof {
                assert(descendants@.take(i + 1).drop_last() =~= descendants@.take(i as int));
                assert(descendants@.take(i + 1).last() == descendants@[i as int]);
            }
            let (pid, generation) = descendants[i];
            if crate::lineage::tracked_generation_is_parent_candidate(generation) {
                generations.push((pid, generation));
            }
            existing.push((pid, generation));
        }
        proof {
            assert(entries@.take(entries@.len() as int) =~= entries@);
            assert(descendants@.take(descendants@.len() as int) =~= descendants@);
        }
        CaptureState {
            snapshot_at,
            pending,
            cursor: 0,
            remaining: Vec::new(),
            advanced: false,
            generations,
            existing,
            inaccessible: Vec::new(),
            anchors: Vec::new(),
            visible_anchors: Vec::new(),
            added: 0,
            opening: false,
            finished: false,
        }
    }
}

/// Decides the next step of a descendant capture from its state and the event the caller
/// reports.
pub fn descendant_capture_step(state: &mut CaptureState, event: CaptureEvent) -> (action: CaptureAction)
    requires
        old(state).added < usize::MAX,
    ensures
        (capture_view(final(state)), action) == capture_next(capture_view(old(state)), event),
{
    if state.finished {
        return CaptureAction::Ignore;
    }
    if state.opening {
        if state.cursor >= state.pending.len() {
            return CaptureAction::Ignore;
        }
        let (pid, parent) = state.pending[state.cursor];
        match event {
            CaptureEvent::Opened(generation) => {
                state.cursor = state.cursor + 1;
                state.opening = false;
                if !snapshot_generation_precedes_capture(generation.created_at, state.snapshot_at) {
                    state.anchors.push(pid);
                    return CaptureAction::Release;
                }
                if !belongs_to_parent(&state.generations, parent, generation.created_at, state.snapshot_at) {
                    if descendant_entry_needs_retry(true, false) {
                        state.remaining.push((pid, parent));
                    }
                    return CaptureAction::Release;
                }
                state.generations.push((pid, generation));
                state.advanced = true;
                if is_tracked_already(&state.existing, pid, generation.created_at) {
                    return CaptureAction::Release;
                }
                state.added = state.added + 1;
                CaptureAction::Keep(ProcessIdentity { pid, created_at: generation.created_at })
            },
            CaptureEvent::OpenFailed { error_code, still_present } => {
                state.cursor = state.cursor + 1;
                state.opening = false;
                let outcome = classify_snapshot_open_failure(error_code, still_present);
                if snapshot_process_requires_uncertainty(&outcome) {
                    state.inaccessible.push(pid);
                }
                if snapshot_process_requires_lineage_anchor(&outcome) {
                    state.anchors.push(pid);
                }
                CaptureAction::Continue
            },
            CaptureEvent::Continue => CaptureAction::Ignore,
        }
    } else {
        match event {
            CaptureEvent::Continue => {},
            _ => {
                return CaptureAction::Ignore;
            },
        }
        if state.cursor >= state.pending.len() {
            if state.advanced {
                let mut next: Vec<(u32, u32)> = Vec::new();
                std::mem::swap(&mut next, &mut state.remaining);
                state.pending = next;
                state.cursor = 0;
                state.advanced = false;
                return CaptureAction::Continue;
            }
            let late = late_anchors(&state.remaining, &state.generations);
            append_all(&mut state.anchors, &late);
            append_all(&mut state.visible_anchors, &late);
            state.finished = true;
            return CaptureAction::Finished;
        }
        let (pid, parent) = state.pending[state.cursor];
        if !parent_is_known(&state.generations, parent) {
            if descendant_entry_needs_retry(false, false) {
                state.remaining.push((pid, parent));
            }
            state.cursor = state.cursor + 1;
            return CaptureAction::Continue;
        }
        match find_live_tracked(&state.existing, pid, state.snapshot_at) {
            Some(generation) => {
                state.cursor = state.cursor + 1;
                if belongs_to_parent(&state.generations, parent, generation.created_at, state.snapshot_at) {
                    state.generations.push((pid, generation));
                    state.advanced = true;
                } else {
                    state.remaining.push((pid, parent));
                }
                CaptureAction::Continue
            },
            None => {
                state.opening = true;
                CaptureAction::Open(pid)
            },
        }
    }
}

} // verus!
