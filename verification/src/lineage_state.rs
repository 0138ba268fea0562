//! Lineage observations kept between descendant captures.
//!
//! Times are monotonic milliseconds. An observation stays fresh while less than the
//! quiescence duration has passed since it was made.

use std::collections::{BTreeMap, BTreeSet};
use vstd::prelude::*;
use vstd::std_specs::iter::IteratorSpec;

use crate::lineage::lineage_edge;

verus! {

broadcast use vstd::std_specs::btree::group_btree_axioms;

/// `now - earlier`, or zero when `earlier` is later than `now`.
pub open spec fn elapsed_since(now: u64, earlier: u64) -> u64 {
    if now >= earlier {
        (now - earlier) as u64
    } else {
        0
    }
}

/// An observation made at `observed_at` is still fresh at `now`.
pub open spec fn still_fresh(now: u64, observed_at: u64, duration: u64) -> bool {
    elapsed_since(now, observed_at) < duration
}

/// The entries of `map` that are still fresh at `now`.
pub open spec fn fresh_entries<K>(map: Map<K, u64>, now: u64, duration: u64) -> Map<K, u64> {
    Map::new(|key: K| map.contains_key(key) && still_fresh(now, map[key], duration), |key: K| map[key])
}

fn elapsed(now: u64, earlier: u64) -> (result: u64)
    ensures
        result == elapsed_since(now, earlier),
{
    if now >= earlier {
        now - earlier
    } else {
        0
    }
}

/// Keeps the entries of `map` that are still fresh at `now`.
fn retain_fresh<K: Ord + Copy>(map: &BTreeMap<K, u64>, now: u64, duration: u64) -> (result: BTreeMap<K, u64>)
    requires
        vstd::laws_cmp::obeys_cmp::<K>(),
    ensures
        result@ == fresh_entries(map@, now, duration),
{
    let mut kept = BTreeMap::new();
    let ghost pairs = vstd::std_specs::btree::spec_btree_map_iter(map).remaining();
    for entry in it: map.iter()
        invariant
            it.seq() == pairs,
            vstd::laws_cmp::obeys_cmp::<K>(),
            forall|key: K|
                #[trigger] kept@.contains_key(key) ==> fresh_entries(map@, now, duration).contains_key(key)
                    && kept@[key] == map@[key],
            forall|j: int|
                0 <= j < it.index() && still_fresh(now, *pairs[j].1, duration) ==> kept@.contains_key(
                    *pairs[j].0,
                ),
    {
        let (key, observed_at) = entry;
        proof {
            assert(map@.contains_key(*key) && map@[*key] == *observed_at);
        }
        if elapsed(now, *observed_at) < duration {
            let ghost before = kept@;
            kept.insert(*key, *observed_at);
        }
    }
    proof {
        assert forall|key: K| #[trigger] fresh_entries(map@, now, duration).contains_key(key) implies kept@.contains_key(key) by {
            assert(pairs.contains((&key, &map@[key])));
            let j = choose|j: int| 0 <= j < pairs.len() && pairs[j] == (&key, &map@[key]);
            assert(*pairs[j].0 == key);
        }
        assert(kept@ =~= fresh_entries(map@, now, duration));
    }
    kept
}

/// Parent edges observed in earlier snapshots, each with the time it was last observed.
pub struct ObservedLineageEdges {
    pub edges: BTreeMap<(u32, u32), u64>,
}

impl Default for ObservedLineageEdges {
    fn default() -> (result: Self)
        ensures
            result.edges@ == Map::<(u32, u32), u64>::empty(),
    {
        ObservedLineageEdges { edges: BTreeMap::new() }
    }
}

/// The lineage edges of `edges`, each mapped to `observed_at`.
pub open spec fn observed_edge_map(edges: Seq<(u32, u32)>, observed_at: u64) -> Map<(u32, u32), u64> {
    Map::new(|edge: (u32, u32)| edges.contains(edge) && lineage_edge(edge), |edge: (u32, u32)| observed_at)
}

impl ObservedLineageEdges {
    /// Records the lineage edges of a snapshot as observed at `observed_at`.
    pub fn observe(&mut self, edges: &[(u32, u32)], observed_at: u64)
        ensures
            final(self).edges@ == old(self).edges@.union_prefer_right(observed_edge_map(edges@, observed_at)),
    {
        let ghost start = self.edges@;
        for index in 0..edges.len()
            invariant
                self.edges@ == start.union_prefer_right(observed_edge_map(edges@.take(index as int), observed_at)),
        {
            let (pid, parent_pid) = edges[index];
            proof {
                assert(edges@.take(index + 1) == edges@.take(index as int).push(edges@[index as int]));
            }
            if pid != 0 && pid != parent_pid {
                self.edges.insert((pid, parent_pid), observed_at);
            }
            proof {
                let before = edges@.take(index as int);
                let after = edges@.take(index + 1);
                assert forall|edge: (u32, u32)| after.contains(edge) <==> before.contains(edge) || edge == edges@[index as int] by {
                    if after.contains(edge) {
                        let j = choose|j: int| 0 <= j < after.len() && after[j] == edge;
                        if j < index {
                            assert(before[j] == edge);
                        }
                    }
                    if before.contains(edge) {
                        let j = choose|j: int| 0 <= j < before.len() && before[j] == edge;
                        assert(after[j] == edge);
                    }
                    if edge == edges@[index as int] {
                        assert(after[index as int] == edge);
                    }
                }
                assert(self.edges@ =~= start.union_prefer_right(observed_edge_map(after, observed_at)));
            }
        }
        proof {
            assert(edges@.take(edges@.len() as int) == edges@);
        }
    }

    /// Forgets the edges that are no longer fresh at `now`.
    pub fn prune(&mut self, now: u64, duration: u64)
        ensures
            final(self).edges@ == fresh_entries(old(self).edges@, now, duration),
    {
        self.edges = retain_fresh(&self.edges, now, duration);
    }

    /// The remembered edges, each once.
    pub fn pairs(&self) -> (result: Vec<(u32, u32)>)
        ensures
            result@.to_set() == self.edges@.dom(),
            result@.no_duplicates(),
    {
        let mut pairs = Vec::new();
        let ghost keys = vstd::std_specs::btree::spec_keys_iter(&self.edges).remaining();
        for key in it: self.edges.keys()
            invariant
                it.seq() == keys,
                pairs@.len() == it.index(),
                forall|j: int| 0 <= j < it.index() ==> pairs@[j] == *keys[j],
        {
            pairs.push(*key);
        }
        proof {
            assert(pairs@ =~= keys.unref());
        }
        pairs
    }
}


/// `anchors` with every pid of `pids` that it lacks added at time `at`.
pub open spec fn with_missing_anchors(anchors: Map<u32, u64>, pids: Set<u32>, at: u64) -> Map<u32, u64> {
    Map::new(
        |pid: u32| anchors.contains_key(pid) || pids.contains(pid),
        |pid: u32| if anchors.contains_key(pid) { anchors[pid] } else { at },
    )
}

/// `anchors` with every observation time moved to `at`.
pub open spec fn anchors_restarted(anchors: Map<u32, u64>, at: u64) -> Map<u32, u64> {
    Map::new(|pid: u32| anchors.contains_key(pid), |pid: u32| at)
}

fn insert_missing_anchors(anchors: &mut BTreeMap<u32, u64>, pids: &BTreeSet<u32>, at: u64)
    ensures
        final(anchors)@ == with_missing_anchors(old(anchors)@, pids@, at),
{
    let ghost start = anchors@;
    let ghost keys = vstd::std_specs::btree::spec_btree_keys_iter(pids).remaining();
    for pid in it: pids.iter()
        invariant
            it.seq() == keys,
            keys.unref().to_set() == pids@,
            forall|p: u32|
                #[trigger] anchors@.contains_key(p) <==> start.contains_key(p) || exists|j: int|
                    0 <= j < it.index() && *keys[j] == p,
            forall|p: u32| #[trigger] anchors@.contains_key(p) ==> anchors@[p] == if start.contains_key(p) {
                start[p]
            } else {
                at
            },
    {
        if !anchors.contains_key(pid) {
            anchors.insert(*pid, at);
        }
    }
    proof {
        assert forall|p: u32| pids@.contains(p) implies anchors@.contains_key(p) by {
            assert(keys.unref().to_set().contains(p));
            let j = choose|j: int| 0 <= j < keys.unref().len() && keys.unref()[j] == p;
            assert(*keys[j] == p);
        }
        assert forall|p: u32| #[trigger] anchors@.contains_key(p) implies start.contains_key(p) || pids@.contains(p) by {
            if !start.contains_key(p) {
                let j = choose|j: int| 0 <= j < keys.len() && *keys[j] == p;
                assert(keys.unref()[j] == p);
                assert(keys.unref().contains(p));
            }
        }
        assert(anchors@ =~= with_missing_anchors(start, pids@, at));
    }
}

fn restart_anchors(anchors: &BTreeMap<u32, u64>, at: u64) -> (result: BTreeMap<u32, u64>)
    ensures
        result@ == anchors_restarted(anchors@, at),
{
    let mut restarted = BTreeMap::new();
    let ghost keys = vstd::std_specs::btree::spec_keys_iter(anchors).remaining();
    for pid in it: anchors.keys()
        invariant
            it.seq() == keys,
            keys.unref().to_set() == anchors@.dom(),
            forall|p: u32|
                #[trigger] restarted@.contains_key(p) <==> exists|j: int| 0 <= j < it.index() && *keys[j] == p,
            forall|p: u32| #[trigger] restarted@.contains_key(p) ==> restarted@[p] == at,
    {
        restarted.insert(*pid, at);
    }
    proof {
        assert forall|p: u32| anchors@.contains_key(p) implies restarted@.contains_key(p) by {
            assert(keys.unref().to_set().contains(p));
            let j = choose|j: int| 0 <= j < keys.unref().len() && keys.unref()[j] == p;
            assert(*keys[j] == p);
        }
        assert forall|p: u32| #[trigger] restarted@.contains_key(p) implies anchors@.contains_key(p) by {
            let j = choose|j: int| 0 <= j < keys.len() && *keys[j] == p;
            assert(keys.unref()[j] == p);
            assert(keys.unref().contains(p));
        }
        assert(restarted@ =~= anchors_restarted(anchors@, at));
    }
    restarted
}

fn key_set(map: &BTreeMap<u32, u64>) -> (result: BTreeSet<u32>)
    ensures
        result@ == map@.dom(),
{
    let mut keys_set = BTreeSet::new();
    let ghost keys = vstd::std_specs::btree::spec_keys_iter(map).remaining();
    for pid in it: map.keys()
        invariant
            it.seq() == keys,
            keys.unref().to_set() == map@.dom(),
            forall|p: u32| #[trigger] keys_set@.contains(p) <==> exists|j: int| 0 <= j < it.index() && *keys[j] == p,
    {
        keys_set.insert(*pid);
    }
    proof {
        assert forall|p: u32| map@.contains_key(p) implies keys_set@.contains(p) by {
            assert(keys.unref().to_set().contains(p));
            let j = choose|j: int| 0 <= j < keys.unref().len() && keys.unref()[j] == p;
            assert(*keys[j] == p);
        }
        assert forall|p: u32| #[trigger] keys_set@.contains(p) implies map@.contains_key(p) by {
            let j = choose|j: int| 0 <= j < keys.len() && *keys[j] == p;
            assert(keys.unref()[j] == p);
            assert(keys.unref().contains(p));
        }
        assert(keys_set@ =~= map@.dom());
    }
    keys_set
}

pub(crate) fn insert_all(target: &mut BTreeSet<u32>, pids: &BTreeSet<u32>)
    ensures
        final(target)@ == old(target)@.union(pids@),
{
    let ghost start = target@;
    let ghost keys = vstd::std_specs::btree::spec_btree_keys_iter(pids).remaining();
    for pid in it: pids.iter()
        invariant
            it.seq() == keys,
            keys.unref().to_set() == pids@,
            forall|p: u32|
                #[trigger] target@.contains(p) <==> start.contains(p) || exists|j: int| 0 <= j < it.index() && *keys[j] == p,
    {
        target.insert(*pid);
    }
    proof {
        assert forall|p: u32| pids@.contains(p) implies target@.contains(p) by {
            assert(keys.unref().to_set().contains(p));
            let j = choose|j: int| 0 <= j < keys.unref().len() && keys.unref()[j] == p;
            assert(*keys[j] == p);
        }
        assert forall|p: u32| #[trigger] target@.contains(p) implies start.contains(p) || pids@.contains(p) by {
            if !start.contains(p) {
                let j = choose|j: int| 0 <= j < keys.len() && *keys[j] == p;
                assert(keys.unref()[j] == p);
                assert(keys.unref().contains(p));
            }
        }
        assert(target@ =~= start.union(pids@));
    }
}

fn members_with_anchor(members: &BTreeSet<u32>, anchors: &BTreeMap<u32, u64>) -> (result: BTreeSet<u32>)
    ensures
        result@ == members@.filter(|pid: u32| anchors@.contains_key(pid)),
{
    let mut kept = BTreeSet::new();
    let ghost keys = vstd::std_specs::btree::spec_btree_keys_iter(members).remaining();
    for pid in it: members.iter()
        invariant
            it.seq() == keys,
            keys.unref().to_set() == members@,
            forall|p: u32| #[trigger] kept@.contains(p) ==> members@.contains(p) && anchors@.contains_key(p),
            forall|j: int| 0 <= j < it.index() && anchors@.contains_key(*keys[j]) ==> kept@.contains(*keys[j]),
    {
        proof {
            assert(keys.unref().contains(*pid));
        }
        if anchors.contains_key(pid) {
            kept.insert(*pid);
        }
    }
    proof {
        assert forall|p: u32| members@.contains(p) && anchors@.contains_key(p) implies kept@.contains(p) by {
            assert(keys.unref().to_set().contains(p));
            let j = choose|j: int| 0 <= j < keys.unref().len() && keys.unref()[j] == p;
            assert(*keys[j] == p);
        }
        assert(kept@ =~= members@.filter(|pid: u32| anchors@.contains_key(pid)));
    }
    kept
}

/// What one descendant capture observed.
pub struct CaptureOutcome {
    pub added: usize,
    pub inaccessible: BTreeSet<u32>,
    pub inaccessible_details: BTreeMap<u32, String>,
    pub lineage_anchors: BTreeSet<u32>,
    pub uncertain_lineage: BTreeSet<u32>,
    pub observed_edges: Vec<(u32, u32)>,
    pub snapshot_at: Option<u64>,
}

impl CaptureOutcome {
    /// A capture that observed nothing.
    pub fn empty() -> (result: Self)
        ensures
            result.added == 0,
            result.inaccessible@.is_empty(),
            result.inaccessible_details@.is_empty(),
            result.lineage_anchors@.is_empty(),
            result.uncertain_lineage@.is_empty(),
            result.observed_edges@.len() == 0,
            result.snapshot_at is None,
    {
        CaptureOutcome {
            added: 0,
            inaccessible: BTreeSet::new(),
            inaccessible_details: BTreeMap::new(),
            lineage_anchors: BTreeSet::new(),
            uncertain_lineage: BTreeSet::new(),
            observed_edges: Vec::new(),
            snapshot_at: None,
        }
    }
}

/// The lineage observations that the next capture starts from.
pub struct LineageCaptureInput {
    pub anchors: BTreeSet<u32>,
    pub members: BTreeSet<u32>,
    pub edges: Vec<(u32, u32)>,
    pub previous_snapshot_at: Option<u64>,
}

/// Temporary lineage anchors with their first observation times, the anchors whose own
/// process is part of the uncertain lineage, remembered edges and the last snapshot time.
pub struct LineageObservationState {
    pub anchors: BTreeMap<u32, u64>,
    pub members: BTreeSet<u32>,
    pub edges: ObservedLineageEdges,
    pub last_snapshot_at: Option<u64>,
}

impl Default for LineageObservationState {
    fn default() -> (result: Self)
        ensures
            result.anchors@.is_empty(),
            result.members@.is_empty(),
            result.edges.edges@.is_empty(),
            result.last_snapshot_at is None,
    {
        LineageObservationState {
            anchors: BTreeMap::new(),
            members: BTreeSet::new(),
            edges: ObservedLineageEdges::default(),
            last_snapshot_at: None,
        }
    }
}

/// `after` is `before` once a capture made at `observed_at` has been observed: its edges and
/// snapshot time recorded, its new anchors and uncertain pids (which become members) added,
/// every anchor's observation time restarted on any uncertainty, and all pruned at
/// `observed_at`.
pub open spec fn capture_observed(
    before: &LineageObservationState,
    after: &LineageObservationState,
    capture: &CaptureOutcome,
    observed_at: u64,
    duration: u64,
) -> bool {
    let merged = with_missing_anchors(
        with_missing_anchors(before.anchors@, capture.lineage_anchors@, observed_at),
        capture.uncertain_lineage@,
        observed_at,
    );
    let restarted = if capture.uncertain_lineage@.is_empty() {
        merged
    } else {
        anchors_restarted(merged, observed_at)
    };
    &&& after.anchors@ == fresh_entries(restarted, observed_at, duration)
    &&& after.members@ == before.members@.union(capture.uncertain_lineage@).filter(
        |pid: u32| fresh_entries(restarted, observed_at, duration).contains_key(pid),
    )
    &&& after.edges.edges@ == fresh_entries(
        before.edges.edges@.union_prefer_right(observed_edge_map(capture.observed_edges@, observed_at)),
        observed_at,
        duration,
    )
    &&& after.last_snapshot_at == match capture.snapshot_at {
        Some(snapshot_at) => Some(snapshot_at),
        None => before.last_snapshot_at,
    }
}

impl LineageObservationState {
    pub fn active_anchors(&self) -> (result: BTreeSet<u32>)
        ensures
            result@ == self.anchors@.dom(),
    {
        key_set(&self.anchors)
    }

    /// Forgets every observation that is no longer fresh at `now`, and every member whose
    /// anchor was forgotten.
    pub fn prune(&mut self, now: u64, duration: u64)
        ensures
            final(self).anchors@ == fresh_entries(old(self).anchors@, now, duration),
            final(self).members@ == old(self).members@.filter(
                |pid: u32| fresh_entries(old(self).anchors@, now, duration).contains_key(pid),
            ),
            final(self).edges.edges@ == fresh_entries(old(self).edges.edges@, now, duration),
            final(self).last_snapshot_at == old(self).last_snapshot_at,
    {
        self.anchors = retain_fresh(&self.anchors, now, duration);
        self.members = members_with_anchor(&self.members, &self.anchors);
        self.edges.prune(now, duration);
    }

    /// Prunes at `now` and hands out what remains.
    pub fn capture_input(&mut self, now: u64, duration: u64) -> (result: LineageCaptureInput)
        ensures
            final(self).anchors@ == fresh_entries(old(self).anchors@, now, duration),
            final(self).members@ == old(self).members@.filter(
                |pid: u32| fresh_entries(old(self).anchors@, now, duration).contains_key(pid),
            ),
            final(self).edges.edges@ == fresh_entries(old(self).edges.edges@, now, duration),
            final(self).last_snapshot_at == old(self).last_snapshot_at,
            result.anchors@ == final(self).anchors@.dom(),
            result.members@ == final(self).members@,
            result.edges@.to_set() == final(self).edges.edges@.dom(),
            result.edges@.no_duplicates(),
            result.previous_snapshot_at == old(self).last_snapshot_at,
    {
        self.prune(now, duration);
        LineageCaptureInput {
            anchors: self.active_anchors(),
            members: self.members.clone(),
            edges: self.edges.pairs(),
            previous_snapshot_at: self.last_snapshot_at,
        }
    }

    /// Records a capture made at `observed_at`: its edges, its snapshot time, its new
    /// anchors and uncertain pids (which become members); any uncertainty restarts every
    /// anchor's observation time. Then prunes at `observed_at`.
    pub fn observe_capture(&mut self, capture: &CaptureOutcome, observed_at: u64, duration: u64)
        ensures
            capture_observed(old(self), final(self), capture, observed_at, duration),
    {
        self.edges.observe(&capture.observed_edges, observed_at);
        if let Some(snapshot_at) = capture.snapshot_at {
            self.last_snapshot_at = Some(snapshot_at);
        }
        insert_missing_anchors(&mut self.anchors, &capture.lineage_anchors, observed_at);
        insert_missing_anchors(&mut self.anchors, &capture.uncertain_lineage, observed_at);
        insert_all(&mut self.members, &capture.uncertain_lineage);
        if !capture.uncertain_lineage.is_empty() {
            self.anchors = restart_anchors(&self.anchors, observed_at);
        }
        self.prune(observed_at, duration);
    }

    pub fn is_empty(&self) -> (result: bool)
        ensures
            result == (self.anchors@.is_empty() && self.members@.is_empty()),
    {
        self.anchors.is_empty() && self.members.is_empty()
    }

    pub fn clear(&mut self)
        ensures
            final(self).anchors@.is_empty(),
            final(self).members@.is_empty(),
            final(self).edges.edges@.is_empty(),
            final(self).last_snapshot_at is None,
    {
        self.anchors.clear();
        self.members.clear();
        self.edges.edges.clear();
        self.last_snapshot_at = None;
    }
}

/// Tracks how long the descendant tree has been observed empty without interruption.
pub struct DescendantQuiescence {
    pub duration: u64,
    pub stable_empty_since: Option<u64>,
}

impl DescendantQuiescence {
    pub fn new(duration: u64) -> (result: Self)
        ensures
            result.duration == duration,
            result.stable_empty_since is None,
    {
        DescendantQuiescence { duration, stable_empty_since: None }
    }

    /// Records whether the tree was empty at `now`; true once it has been empty for the
    /// whole duration.
    pub fn observe(&mut self, now: u64, empty: bool) -> (result: bool)
        ensures
            final(self).duration == old(self).duration,
            !empty ==> final(self).stable_empty_since is None && !result,
            empty ==> final(self).stable_empty_since == Some(
                match old(self).stable_empty_since {
                    Some(since) => since,
                    None => now,
                },
            ),
            empty ==> result == (elapsed_since(now, final(self).stable_empty_since->0) >= old(self).duration),
    {
        if !empty {
            self.stable_empty_since = None;
            return false;
        }
        let stable_since = match self.stable_empty_since {
            Some(since) => since,
            None => now,
        };
        self.stable_empty_since = Some(stable_since);
        elapsed(now, stable_since) >= self.duration
    }
}

} // verus!
