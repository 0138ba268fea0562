//! Three-way synchronisation of native Goal intents between the daily and the isolated
//! app, per shared thread, against the base recorded at the last synchronisation.
//!
//! When both sides agree, the agreement becomes the base. When exactly one side moved
//! away from the base (or only one side has a Goal and there is no base), its Goal is
//! copied to the other side, provided that side still holds what was read. Everything
//! else is recorded as a conflict and left alone.

use vstd::prelude::*;

use crate::digest::{char_is_hex, is_hex_char};
use crate::text::{
    chars_equal, chars_of, is_blank, is_blank_text, lemma_text_lt_irreflexive, lemma_text_lt_total,
    lemma_text_lt_transitive, text_less, text_lt,
};

verus! {

/// The most bytes a Goal objective may hold.
pub const MAX_OBJECTIVE_BYTES: usize = 1048576;

/// The most threads one synchronisation may cover.
pub const MAX_SHARED_THREADS: usize = 4096;

#[derive(Debug, Clone, Copy, PartialEq, Eq, Structural)]
pub enum NativeGoalStatus {
    Active,
    Paused,
    Blocked,
    UsageLimited,
    BudgetLimited,
    Complete,
}

/// What a thread's Goal asks for.
#[derive(Debug, Clone, PartialEq, Eq)]
pub struct NativeGoalIntent {
    pub objective: String,
    pub status: NativeGoalStatus,
    pub token_budget: Option<i64>,
}

/// A Goal as values.
pub ghost struct GoalView {
    pub objective: Seq<char>,
    pub status: NativeGoalStatus,
    pub token_budget: Option<i64>,
}

pub open spec fn goal_view(goal: NativeGoalIntent) -> GoalView {
    GoalView { objective: goal.objective@, status: goal.status, token_budget: goal.token_budget }
}

pub open spec fn opt_goal_view(goal: Option<NativeGoalIntent>) -> Option<GoalView> {
    match goal {
        Some(g) => Some(goal_view(g)),
        None => None,
    }
}

/// Why a synchronisation failed.
#[derive(Debug, Clone, PartialEq, Eq)]
pub enum GoalSyncError {
    InvalidObjective,
    InvalidTokenBudget,
    InvalidThreadId,
    TooManyThreads,
    Store(String),
    UnsupportedManifestVersion,
    DuplicateRecord,
}

/// A Goal is valid when its objective is not blank, fits `MAX_OBJECTIVE_BYTES` and holds
/// no NUL, and its token budget, if any, is positive.
pub open spec fn goal_error(goal: &NativeGoalIntent) -> Option<GoalSyncError> {
    if is_blank(goal.objective@) || vstd::utf8::encode_utf8(goal.objective@).len() > MAX_OBJECTIVE_BYTES || exists|i: int|
        0 <= i < goal.objective@.len() && #[trigger] goal.objective@[i] == '\0' {
        Some(GoalSyncError::InvalidObjective)
    } else if goal.token_budget matches Some(budget) && budget <= 0 {
        Some(GoalSyncError::InvalidTokenBudget)
    } else {
        None
    }
}

impl NativeGoalIntent {
    /// Checks the objective and the token budget.
    pub fn validate(&self) -> (result: Result<(), GoalSyncError>)
        ensures
            match result {
                Ok(()) => goal_error(self) is None,
                Err(e) => goal_error(self) == Some(e),
            },
    {
        let chars = chars_of(self.objective.as_str());
        let mut has_nul = false;
        for i in 0..chars.len()
            invariant
                has_nul == exists|t: int| 0 <= t < i && #[trigger] chars@[t] == '\0',
        {
            if chars[i] == '\0' {
                has_nul = true;
            }
        }
        if is_blank_text(self.objective.as_str()) || crate::text::byte_len(self.objective.as_str()) > MAX_OBJECTIVE_BYTES
            || has_nul {
            proof {
                assert(chars@ == self.objective@);
            }
            return Err(GoalSyncError::InvalidObjective);
        }
        match self.token_budget {
            Some(budget) => {
                if budget <= 0 {
                    return Err(GoalSyncError::InvalidTokenBudget);
                }
            },
            None => {},
        }
        Ok(())
    }
}

fn goals_equal(left: &Option<NativeGoalIntent>, right: &Option<NativeGoalIntent>) -> (result: bool)
    ensures
        result == (opt_goal_view(*left) == opt_goal_view(*right)),
{
    match (left, right) {
        (Some(l), Some(r)) => {
            let lo = chars_of(l.objective.as_str());
            let ro = chars_of(r.objective.as_str());
            chars_equal(lo.as_slice(), ro.as_slice()) && l.status == r.status && l.token_budget == r.token_budget
        },
        (None, None) => true,
        _ => false,
    }
}

fn copy_goal(goal: &NativeGoalIntent) -> (result: NativeGoalIntent)
    ensures
        goal_view(result) == goal_view(*goal),
{
    NativeGoalIntent { objective: goal.objective.clone(), status: goal.status, token_budget: goal.token_budget }
}

fn copy_opt_goal(goal: &Option<NativeGoalIntent>) -> (result: Option<NativeGoalIntent>)
    ensures
        opt_goal_view(result) == opt_goal_view(*goal),
{
    match goal {
        Some(g) => Some(copy_goal(g)),
        None => None,
    }
}

// ----- thread ids -----

/// A thread id: a UUID of 36 characters, with `-` at 8, 13, 18 and 23 and hexadecimal
/// digits elsewhere.
pub open spec fn is_thread_id(s: Seq<char>) -> bool {
    s.len() == 36 && forall|i: int| 0 <= i < 36 ==> if i == 8 || i == 13 || i == 18 || i == 23 {
        #[trigger] s[i] == '-'
    } else {
        is_hex_char(s[i])
    }
}

/// Whether `thread_id` is a thread id.
pub fn valid_thread_id(thread_id: &str) -> (result: bool)
    ensures
        result == is_thread_id(thread_id@),
{
    let chars = chars_of(thread_id);
    if chars.len() != 36 {
        return false;
    }
    for i in 0..36usize
        invariant
            chars@.len() == 36,
            chars@ == thread_id@,
            forall|t: int| 0 <= t < i ==> if t == 8 || t == 13 || t == 18 || t == 23 {
                #[trigger] chars@[t] == '-'
            } else {
                is_hex_char(chars@[t])
            },
    {
        let c = chars[i];
        if i == 8 || i == 13 || i == 18 || i == 23 {
            if c != '-' {
                return false;
            }
        } else if !char_is_hex(c) {
            return false;
        }
    }
    true
}

/// `ids` holds, sorted and without repeats, exactly the texts of `source`.
pub open spec fn is_sorted_set_of(ids: Seq<Seq<char>>, source: Seq<Seq<char>>) -> bool {
    &&& forall|i: int| 0 <= i < ids.len() ==> source.contains(#[trigger] ids[i])
    &&& forall|i: int| 0 <= i < source.len() ==> ids.contains(#[trigger] source[i])
    &&& forall|i: int, j: int| 0 <= i < j < ids.len() ==> text_lt(ids[i], ids[j])
}

pub open spec fn texts_of(values: Seq<String>) -> Seq<Seq<char>> {
    values.map_values(|value: String| value@)
}

/// The number of distinct texts among `values`.
pub open spec fn distinct_count(values: Seq<Seq<char>>) -> nat {
    values.to_set().len()
}

/// The first refusal of the thread ids, in order: an invalid id, or an id that makes more
/// than `MAX_SHARED_THREADS` distinct ones.
pub open spec fn thread_ids_error(ids: Seq<String>, count: int) -> Option<GoalSyncError>
    decreases count,
{
    if count <= 0 {
        None
    } else if thread_ids_error(ids, count - 1) is Some {
        thread_ids_error(ids, count - 1)
    } else if !is_thread_id(ids[count - 1]@) {
        Some(GoalSyncError::InvalidThreadId)
    } else if distinct_count(texts_of(ids.take(count))) > MAX_SHARED_THREADS {
        Some(GoalSyncError::TooManyThreads)
    } else {
        None
    }
}

proof fn lemma_sorted_set_count(ids: Seq<Seq<char>>, source: Seq<Seq<char>>)
    requires
        is_sorted_set_of(ids, source),
    ensures
        ids.len() == distinct_count(source),
{
    assert(ids.no_duplicates()) by {
        assert forall|i: int, j: int| 0 <= i < ids.len() && 0 <= j < ids.len() && i != j implies ids[i] != ids[j] by {
            if i < j {
                lemma_text_lt_irreflexive(ids[i]);
            } else {
                lemma_text_lt_irreflexive(ids[j]);
            }
        }
    }
    ids.unique_seq_to_set();
    assert(ids.to_set() =~= source.to_set()) by {
        assert forall|x: Seq<char>| ids.to_set().contains(x) implies source.to_set().contains(x) by {
            let i = choose|i: int| 0 <= i < ids.len() && ids[i] == x;
            assert(source.contains(ids[i]));
        }
        assert forall|x: Seq<char>| source.to_set().contains(x) implies ids.to_set().contains(x) by {
            let i = choose|i: int| 0 <= i < source.len() && source[i] == x;
            assert(ids.contains(source[i]));
        }
    }
}

proof fn lemma_sorted_set_add(ids: Seq<Seq<char>>, source: Seq<Seq<char>>, item: Seq<char>, position: int)
    requires
        is_sorted_set_of(ids, source),
        0 <= position <= ids.len(),
        forall|i: int| 0 <= i < position ==> text_lt(#[trigger] ids[i], item),
        position < ids.len() ==> !text_lt(ids[position], item),
    ensures
        position < ids.len() && ids[position] == item ==> is_sorted_set_of(ids, source.push(item)),
        !(position < ids.len() && ids[position] == item) ==> is_sorted_set_of(ids.insert(position, item), source.push(item)),
{
    let next = source.push(item);
    if position < ids.len() && ids[position] == item {
        assert forall|i: int| 0 <= i < ids.len() implies next.contains(#[trigger] ids[i]) by {
            assert(source.contains(ids[i]));
            let t = choose|t: int| 0 <= t < source.len() && source[t] == ids[i];
            assert(next[t] == ids[i]);
        }
        assert forall|i: int| 0 <= i < next.len() implies ids.contains(#[trigger] next[i]) by {
            if i < source.len() {
                assert(next[i] == source[i]);
            } else {
                assert(ids[position] == next[i]);
            }
        }
    } else {
        let after = ids.insert(position, item);
        if position < ids.len() {
            lemma_text_lt_total(item, ids[position]);
        }
        assert forall|i: int, j: int| 0 <= i < j < after.len() implies text_lt(after[i], after[j]) by {
            if j < position {
            } else if j == position {
            } else if i < position {
                assert(after[j] == ids[j - 1]);
                if j - 1 > position {
                    lemma_text_lt_transitive(item, ids[position], ids[j - 1]);
                }
                lemma_text_lt_transitive(ids[i], item, ids[j - 1]);
            } else if i == position {
                assert(after[j] == ids[j - 1]);
                if j - 1 > position {
                    lemma_text_lt_transitive(item, ids[position], ids[j - 1]);
                }
            } else {
                assert(after[i] == ids[i - 1]);
                assert(after[j] == ids[j - 1]);
            }
        }
        assert forall|i: int| 0 <= i < after.len() implies next.contains(#[trigger] after[i]) by {
            if i == position {
                assert(next[source.len() as int] == item);
            } else {
                let k = if i < position {
                    i
                } else {
                    i - 1
                };
                assert(after[i] == ids[k]);
                assert(source.contains(ids[k]));
                let t = choose|t: int| 0 <= t < source.len() && source[t] == ids[k];
                assert(next[t] == ids[k]);
            }
        }
        assert forall|i: int| 0 <= i < next.len() implies after.contains(#[trigger] next[i]) by {
            if i < source.len() {
                assert(next[i] == source[i]);
                assert(ids.contains(source[i]));
                let k = choose|k: int| 0 <= k < ids.len() && ids[k] == source[i];
                if k < position {
                    assert(after[k] == ids[k]);
                } else {
                    assert(after[k + 1] == ids[k]);
                }
            } else {
                assert(after[position] == next[i]);
            }
        }
    }
}

proof fn lemma_thread_ids_error_extends(ids: Seq<String>, count: int, total: int)
    requires
        0 <= count <= total,
        thread_ids_error(ids, count) is Some,
    ensures
        thread_ids_error(ids, total) == thread_ids_error(ids, count),
    decreases total - count,
{
    if count < total {
        lemma_thread_ids_error_extends(ids, count + 1, total);
    }
}

/// The thread ids, checked, sorted and without repeats.
pub fn validated_thread_ids(thread_ids: &[String]) -> (result: Result<Vec<String>, GoalSyncError>)
    ensures
        match result {
            Ok(ids) => thread_ids_error(thread_ids@, thread_ids@.len() as int) is None && is_sorted_set_of(
                texts_of(ids@),
                texts_of(thread_ids@),
            ),
            Err(e) => thread_ids_error(thread_ids@, thread_ids@.len() as int) == Some(e),
        },
{
    let mut unique: Vec<String> = Vec::new();
    proof {
        assert(texts_of(thread_ids@.take(0)) =~= Seq::<Seq<char>>::empty());
        assert(texts_of(unique@) =~= Seq::<Seq<char>>::empty());
    }
    for k in 0..thread_ids.len()
        invariant
            thread_ids_error(thread_ids@, k as int) is None,
            is_sorted_set_of(texts_of(unique@), texts_of(thread_ids@.take(k as int))),
    {
        let thread_id = &thread_ids[k];
        if !valid_thread_id(thread_id.as_str()) {
            proof {
                lemma_thread_ids_error_extends(thread_ids@, k + 1, thread_ids@.len() as int);
            }
            return Err(GoalSyncError::InvalidThreadId);
        }
        let id_chars = chars_of(thread_id.as_str());
        let mut position: usize = 0;
        while position < unique.len() && text_less(chars_of(unique[position].as_str()).as_slice(), id_chars.as_slice())
            invariant
                position <= unique@.len(),
                id_chars@ == thread_id@,
                forall|i: int| 0 <= i < position ==> text_lt(#[trigger] texts_of(unique@)[i], thread_id@),
            decreases unique@.len() - position,
        {
            position += 1;
        }
        let ghost before = texts_of(unique@);
        proof {
            assert(texts_of(thread_ids@.take(k + 1)) =~= texts_of(thread_ids@.take(k as int)).push(thread_id@));
            lemma_sorted_set_add(before, texts_of(thread_ids@.take(k as int)), thread_id@, position as int);
        }
        let present = position < unique.len() && chars_equal(chars_of(unique[position].as_str()).as_slice(), id_chars.as_slice());
        if !present {
            unique.insert(position, thread_id.clone());
            proof {
                assert(texts_of(unique@) =~= before.insert(position as int, thread_id@));
            }
        }
        if unique.len() > MAX_SHARED_THREADS {
            proof {
                lemma_sorted_set_count(texts_of(unique@), texts_of(thread_ids@.take(k + 1)));
                lemma_thread_ids_error_extends(thread_ids@, k + 1, thread_ids@.len() as int);
            }
            return Err(GoalSyncError::TooManyThreads);
        }
        proof {
            lemma_sorted_set_count(texts_of(unique@), texts_of(thread_ids@.take(k + 1)));
        }
    }
    proof {
        assert(thread_ids@.take(thread_ids@.len() as int) =~= thread_ids@);
    }
    Ok(unique)
}

// ----- the three-way decision -----

/// What to do with one thread.
#[derive(Debug, Clone, Copy, PartialEq, Eq, Structural)]
pub enum GoalSyncDecision {
    Unchanged,
    CopyToDaily,
    CopyToIsolated,
    Conflict,
}

/// The three-way decision for one thread from both Goals and the base of its record, if
/// it has one: agreement leaves both alone; a side that alone moved away from the base, or
/// that alone has a Goal when there is no record, is copied to the other; anything else is
/// a conflict.
pub open spec fn decision_of(
    daily: Option<GoalView>,
    isolated: Option<GoalView>,
    prior_base: Option<Option<GoalView>>,
) -> GoalSyncDecision {
    if daily == isolated {
        GoalSyncDecision::Unchanged
    } else {
        match prior_base {
            Some(base) => if daily == base && isolated != base {
                GoalSyncDecision::CopyToDaily
            } else if isolated == base && daily != base {
                GoalSyncDecision::CopyToIsolated
            } else {
                GoalSyncDecision::Conflict
            },
            None => if daily is Some && isolated is None {
                GoalSyncDecision::CopyToIsolated
            } else if daily is None && isolated is Some {
                GoalSyncDecision::CopyToDaily
            } else {
                GoalSyncDecision::Conflict
            },
        }
    }
}

/// Two Goals that were read and could not be reconciled.
#[derive(Debug, Clone, PartialEq, Eq)]
pub struct GoalIntentConflict {
    pub daily: Option<NativeGoalIntent>,
    pub isolated: Option<NativeGoalIntent>,
}

/// What was recorded of a thread at the last synchronisation.
#[derive(Debug, Clone, PartialEq, Eq)]
pub struct GoalIntentSyncRecord {
    pub base: Option<NativeGoalIntent>,
    pub conflict: Option<GoalIntentConflict>,
}

pub ghost struct RecordView {
    pub base: Option<GoalView>,
    pub conflict: Option<(Option<GoalView>, Option<GoalView>)>,
}

pub open spec fn record_view(record: GoalIntentSyncRecord) -> RecordView {
    RecordView {
        base: opt_goal_view(record.base),
        conflict: match record.conflict {
            Some(c) => Some((opt_goal_view(c.daily), opt_goal_view(c.isolated))),
            None => None,
        },
    }
}

/// Decides what to do with one thread.
pub fn plan_goal_sync(
    daily: &Option<NativeGoalIntent>,
    isolated: &Option<NativeGoalIntent>,
    prior: Option<&GoalIntentSyncRecord>,
) -> (result: GoalSyncDecision)
    ensures
        result == decision_of(
            opt_goal_view(*daily),
            opt_goal_view(*isolated),
            match prior {
                Some(record) => Some(opt_goal_view(record.base)),
                None => None,
            },
        ),
{
    if goals_equal(daily, isolated) {
        return GoalSyncDecision::Unchanged;
    }
    match prior {
        Some(record) => {
            if goals_equal(daily, &record.base) && !goals_equal(isolated, &record.base) {
                GoalSyncDecision::CopyToDaily
            } else if goals_equal(isolated, &record.base) && !goals_equal(daily, &record.base) {
                GoalSyncDecision::CopyToIsolated
            } else {
                GoalSyncDecision::Conflict
            }
        },
        None => {
            if daily.is_some() && isolated.is_none() {
                GoalSyncDecision::CopyToIsolated
            } else if daily.is_none() && isolated.is_some() {
                GoalSyncDecision::CopyToDaily
            } else {
                GoalSyncDecision::Conflict
            }
        },
    }
}

/// A copy reconciles the thread: afterwards both sides hold the copied Goal, which is the
/// new base, so the next synchronisation leaves the thread unchanged. And a thread is left
/// unchanged exactly when both sides agree.
pub proof fn lemma_copy_reconciles(
    daily: Option<GoalView>,
    isolated: Option<GoalView>,
    prior_base: Option<Option<GoalView>>,
)
    ensures
        decision_of(daily, isolated, prior_base) == GoalSyncDecision::CopyToDaily ==> decision_of(
            isolated,
            isolated,
            Some(isolated),
        ) == GoalSyncDecision::Unchanged,
        decision_of(daily, isolated, prior_base) == GoalSyncDecision::CopyToIsolated ==> decision_of(
            daily,
            daily,
            Some(daily),
        ) == GoalSyncDecision::Unchanged,
        decision_of(daily, isolated, prior_base) == GoalSyncDecision::Unchanged <==> daily == isolated,
{
}

/// A copy never overwrites a change: with a recorded base, a side is written only while it
/// still holds the base and the other side moved away from it; when both sides moved away
/// from the base to different Goals, nothing is copied and the thread is a conflict.
/// Without a record, only a side that has no Goal receives the other side's.
pub proof fn lemma_copy_only_over_base(daily: Option<GoalView>, isolated: Option<GoalView>, base: Option<GoalView>)
    ensures
        decision_of(daily, isolated, Some(base)) == GoalSyncDecision::CopyToDaily ==> daily == base && isolated != base,
        decision_of(daily, isolated, Some(base)) == GoalSyncDecision::CopyToIsolated ==> isolated == base && daily
            != base,
        daily != base && isolated != base && daily != isolated ==> decision_of(daily, isolated, Some(base))
            == GoalSyncDecision::Conflict,
        daily == base && isolated != base ==> decision_of(daily, isolated, Some(base)) == GoalSyncDecision::CopyToDaily,
        isolated == base && daily != base ==> decision_of(daily, isolated, Some(base))
            == GoalSyncDecision::CopyToIsolated,
        decision_of(daily, isolated, None) == GoalSyncDecision::CopyToDaily ==> daily is None && isolated is Some,
        decision_of(daily, isolated, None) == GoalSyncDecision::CopyToIsolated ==> isolated is None && daily is Some,
        daily is Some && isolated is Some && daily != isolated ==> decision_of(daily, isolated, None)
            == GoalSyncDecision::Conflict,
{
}

/// The decision does not depend on which app is called daily: swapping the sides swaps the
/// direction of a copy and keeps agreement and conflict.
pub proof fn lemma_decision_symmetric(
    daily: Option<GoalView>,
    isolated: Option<GoalView>,
    prior_base: Option<Option<GoalView>>,
)
    ensures
        decision_of(isolated, daily, prior_base) == match decision_of(daily, isolated, prior_base) {
            GoalSyncDecision::CopyToDaily => GoalSyncDecision::CopyToIsolated,
            GoalSyncDecision::CopyToIsolated => GoalSyncDecision::CopyToDaily,
            other => other,
        },
{
}

// ----- the records of the last synchronisation -----

pub open spec fn unique_keys(records: Seq<(String, GoalIntentSyncRecord)>) -> bool {
    forall|i: int, j: int| 0 <= i < j < records.len() ==> records[i].0@ != records[j].0@
}

/// The record of `id`, if there is one.
pub open spec fn record_at(records: Seq<(String, GoalIntentSyncRecord)>, id: Seq<char>) -> Option<RecordView> {
    if exists|i: int| 0 <= i < records.len() && #[trigger] records[i].0@ == id {
        Some(record_view(records[choose|i: int| 0 <= i < records.len() && #[trigger] records[i].0@ == id].1))
    } else {
        None
    }
}

fn text_eq(left: &String, right: &String) -> (result: bool)
    ensures
        result == (left@ == right@),
{
    let l = chars_of(left.as_str());
    let r = chars_of(right.as_str());
    chars_equal(l.as_slice(), r.as_slice())
}

fn find_record(records: &Vec<(String, GoalIntentSyncRecord)>, id: &String) -> (result: Option<usize>)
    requires
        unique_keys(records@),
    ensures
        match result {
            Some(i) => i < records@.len() && records@[i as int].0@ == id@ && record_at(records@, id@) == Some(
                record_view(records@[i as int].1),
            ),
            None => record_at(records@, id@) is None,
        },
{
    for i in 0..records.len()
        invariant
            unique_keys(records@),
            forall|t: int| 0 <= t < i ==> #[trigger] records@[t].0@ != id@,
    {
        if text_eq(&records[i].0, id) {
            proof {
                assert(records@[i as int].0@ == id@);
                let c = choose|c: int| 0 <= c < records@.len() && #[trigger] records@[c].0@ == id@;
                if c < i {
                    assert(records@[c].0@ != id@);
                } else if c > i {
                    assert(records@[i as int].0@ != records@[c].0@);
                }
            }
            return Some(i);
        }
    }
    None
}

/// Records `record` for `id`, replacing any record it had.
fn put_record(records: &mut Vec<(String, GoalIntentSyncRecord)>, id: &String, record: GoalIntentSyncRecord)
    requires
        unique_keys(old(records)@),
    ensures
        unique_keys(final(records)@),
        record_at(final(records)@, id@) == Some(record_view(record)),
        forall|other: Seq<char>| other != id@ ==> record_at(final(records)@, other) == record_at(old(records)@, other),
{
    let ghost rv = record_view(record);
    let ghost before = records@;
    match find_record(records, id) {
        Some(i) => {
            let key = records[i].0.clone();
            records.set(i, (key, record));
            proof {
                let after = records@;
                assert forall|a: int, b: int| 0 <= a < b < after.len() implies after[a].0@ != after[b].0@ by {
                    assert(after[a].0@ == before[a].0@);
                    assert(after[b].0@ == before[b].0@);
                }
                assert(after[i as int].0@ == id@);
                assert forall|other: Seq<char>| other != id@ implies record_at(after, other) == record_at(before, other) by {
                    if exists|t: int| 0 <= t < before.len() && #[trigger] before[t].0@ == other {
                        let t = choose|t: int| 0 <= t < before.len() && #[trigger] before[t].0@ == other;
                        assert(after[t].0@ == other);
                        let c = choose|c: int| 0 <= c < after.len() && #[trigger] after[c].0@ == other;
                        let d = choose|d: int| 0 <= d < before.len() && #[trigger] before[d].0@ == other;
                        assert(before[c].0@ == other);
                        if c != d {
                            if c < d {
                                assert(before[c].0@ != before[d].0@);
                            } else {
                                assert(before[d].0@ != before[c].0@);
                            }
                        }
                        assert(c != i);
                        assert(after[c] == before[c]);
                    } else {
                        assert forall|t: int| 0 <= t < after.len() implies #[trigger] after[t].0@ != other by {
                            assert(after[t].0@ == before[t].0@);
                        }
                    }
                }
                let c = choose|c: int| 0 <= c < after.len() && #[trigger] after[c].0@ == id@;
                if c != i {
                    if c < i {
                        assert(after[c].0@ != after[i as int].0@);
                    } else {
                        assert(after[i as int].0@ != after[c].0@);
                    }
                }
            }
        },
        None => {
            records.push((id.clone(), record));
            proof {
                let after = records@;
                let n = before.len() as int;
                assert(after[n].0@ == id@);
                assert forall|a: int, b: int| 0 <= a < b < after.len() implies after[a].0@ != after[b].0@ by {
                    if b == n {
                        assert(after[a] == before[a]);
                    } else {
                        assert(after[a] == before[a]);
                        assert(after[b] == before[b]);
                    }
                }
                let c = choose|c: int| 0 <= c < after.len() && #[trigger] after[c].0@ == id@;
                if c < n {
                    assert(after[c] == before[c]);
                }
                assert forall|other: Seq<char>| other != id@ implies record_at(after, other) == record_at(before, other) by {
                    if exists|t: int| 0 <= t < before.len() && #[trigger] before[t].0@ == other {
                        let t = choose|t: int| 0 <= t < before.len() && #[trigger] before[t].0@ == other;
                        assert(after[t] == before[t]);
                        let c2 = choose|c2: int| 0 <= c2 < after.len() && #[trigger] after[c2].0@ == other;
                        let d = choose|d: int| 0 <= d < before.len() && #[trigger] before[d].0@ == other;
                        assert(c2 < n);
                        assert(after[c2] == before[c2]);
                        if c2 != d {
                            if c2 < d {
                                assert(before[c2].0@ != before[d].0@);
                            } else {
                                assert(before[d].0@ != before[c2].0@);
                            }
                        }
                    } else {
                        assert forall|t: int| 0 <= t < after.len() implies #[trigger] after[t].0@ != other by {
                            if t < n {
                                assert(after[t] == before[t]);
                            }
                        }
                    }
                }
            }
        },
    }
}

// ----- synchronising through the stores -----

/// Reads and writes the Goals of one app. An implementation holds one Goal, or none, per
/// thread: a read answers what is held and changes nothing, and a successful write or
/// clear changes only the thread it names. Whether a request fails depends on the thread
/// (and, for a write, on what is written) alone: `read_failure` and `write_failure` give
/// the message a failing request answers, and no request changes them. This describes a
/// store that no one else writes while a synchronisation runs; where another writer does,
/// the re-read before each write still refuses to overwrite what changed, but these
/// contracts do not describe it.
pub trait NativeGoalStore {
    /// The Goal held for `thread_id`, if any.
    spec fn goal_of(&self, thread_id: Seq<char>) -> Option<GoalView>;

    /// The message a read of `thread_id` fails with, if it fails.
    spec fn read_failure(&self, thread_id: Seq<char>) -> Option<Seq<char>>;

    /// The message writing `goal` for `thread_id` (clearing it, for `None`) fails with, if
    /// it fails.
    spec fn write_failure(&self, thread_id: Seq<char>, goal: Option<GoalView>) -> Option<Seq<char>>;

    /// The requests made of the store so far.
    spec fn requests(&self) -> nat;

    /// The writes (sets and clears) requested of the store so far.
    spec fn writes(&self) -> nat;

    /// The threads that the writes requested so far named, in order.
    spec fn written_threads(&self) -> Seq<Seq<char>>;

    fn get_goal(&mut self, thread_id: &str) -> (result: Result<Option<NativeGoalIntent>, String>)
        ensures
            forall|t: Seq<char>| #[trigger] final(self).goal_of(t) == old(self).goal_of(t),
            forall|t: Seq<char>| #[trigger] final(self).read_failure(t) == old(self).read_failure(t),
            forall|t: Seq<char>, g: Option<GoalView>| #[trigger] final(self).write_failure(t, g) == old(self).write_failure(t, g),
            match result {
                Ok(goal) => old(self).read_failure(thread_id@) is None && opt_goal_view(goal) == old(self).goal_of(thread_id@),
                Err(message) => old(self).read_failure(thread_id@) == Some(message@),
            },
            final(self).requests() == old(self).requests() + 1,
            final(self).writes() == old(self).writes(),
            final(self).written_threads() == old(self).written_threads(),
    ;

    fn set_goal(&mut self, thread_id: &str, goal: &NativeGoalIntent) -> (result: Result<(), String>)
        ensures
            final(self).requests() == old(self).requests() + 1,
            final(self).writes() == old(self).writes() + 1,
            final(self).written_threads() == old(self).written_threads().push(thread_id@),
            forall|t: Seq<char>| #[trigger] final(self).read_failure(t) == old(self).read_failure(t),
            forall|t: Seq<char>, g: Option<GoalView>| #[trigger] final(self).write_failure(t, g) == old(self).write_failure(t, g),
            match result {
                Ok(()) => old(self).write_failure(thread_id@, Some(goal_view(*goal))) is None,
                Err(message) => old(self).write_failure(thread_id@, Some(goal_view(*goal))) == Some(message@),
            },
            result is Ok ==> final(self).goal_of(thread_id@) == Some(goal_view(*goal)),
            result is Ok ==> forall|t: Seq<char>|
                t != thread_id@ ==> #[trigger] final(self).goal_of(t) == old(self).goal_of(t),
    ;

    fn clear_goal(&mut self, thread_id: &str) -> (result: Result<(), String>)
        ensures
            final(self).requests() == old(self).requests() + 1,
            final(self).writes() == old(self).writes() + 1,
            final(self).written_threads() == old(self).written_threads().push(thread_id@),
            forall|t: Seq<char>| #[trigger] final(self).read_failure(t) == old(self).read_failure(t),
            forall|t: Seq<char>, g: Option<GoalView>| #[trigger] final(self).write_failure(t, g) == old(self).write_failure(t, g),
            match result {
                Ok(()) => old(self).write_failure(thread_id@, None) is None,
                Err(message) => old(self).write_failure(thread_id@, None) == Some(message@),
            },
            result is Ok ==> final(self).goal_of(thread_id@) is None,
            result is Ok ==> forall|t: Seq<char>|
                t != thread_id@ ==> #[trigger] final(self).goal_of(t) == old(self).goal_of(t),
    ;
}

/// Every write request that `after` records beyond `before` named a thread among `ids`
/// whose decision calls for a copy to this side.
pub open spec fn writes_only_copies<D: NativeGoalStore, I: NativeGoalStore>(
    before: Seq<Seq<char>>,
    after: Seq<Seq<char>>,
    ids: Seq<Seq<char>>,
    daily: D,
    isolated: I,
    records: Seq<(String, GoalIntentSyncRecord)>,
    copy: GoalSyncDecision,
) -> bool {
    &&& before.len() <= after.len()
    &&& after.take(before.len() as int) == before
    &&& forall|i: int|
        before.len() <= i < after.len() ==> ids.contains(#[trigger] after[i]) && decision_of(
            daily.goal_of(after[i]),
            isolated.goal_of(after[i]),
            prior_base(records, after[i]),
        ) == copy
}

/// A store is asked to write only the threads whose decision copies to it: a thread whose
/// Goals conflict, or that needs no copy to that side, is not named by any write request a
/// synchronisation makes of it.
pub proof fn lemma_no_write_without_copy<D: NativeGoalStore, I: NativeGoalStore>(
    before: Seq<Seq<char>>,
    after: Seq<Seq<char>>,
    ids: Seq<Seq<char>>,
    daily: D,
    isolated: I,
    records: Seq<(String, GoalIntentSyncRecord)>,
    copy: GoalSyncDecision,
    t: Seq<char>,
)
    requires
        writes_only_copies(before, after, ids, daily, isolated, records, copy),
        decision_of(daily.goal_of(t), isolated.goal_of(t), prior_base(records, t)) != copy,
    ensures
        !after.skip(before.len() as int).contains(t),
{
    if after.skip(before.len() as int).contains(t) {
        let j = choose|j: int| 0 <= j < after.skip(before.len() as int).len() && after.skip(before.len() as int)[j] == t;
        assert(after[before.len() + j] == t);
    }
}

proof fn lemma_writes_step<D: NativeGoalStore, I: NativeGoalStore>(
    before: Seq<Seq<char>>,
    prev: Seq<Seq<char>>,
    after: Seq<Seq<char>>,
    seen: Seq<Seq<char>>,
    next: Seq<Seq<char>>,
    tid: Seq<char>,
    daily: D,
    isolated: I,
    records: Seq<(String, GoalIntentSyncRecord)>,
    copy: GoalSyncDecision,
)
    requires
        writes_only_copies(before, prev, seen, daily, isolated, records, copy),
        forall|t: Seq<char>| seen.contains(t) ==> next.contains(t),
        next.contains(tid),
        after == prev || (after == prev.push(tid) && decision_of(
            daily.goal_of(tid),
            isolated.goal_of(tid),
            prior_base(records, tid),
        ) == copy),
    ensures
        writes_only_copies(before, after, next, daily, isolated, records, copy),
{
    assert(after.take(before.len() as int) =~= before) by {
        if after != prev {
            assert(after.take(before.len() as int) =~= prev.take(before.len() as int));
        }
    }
    assert forall|i: int| before.len() <= i < after.len() implies next.contains(#[trigger] after[i]) && decision_of(
        daily.goal_of(after[i]),
        isolated.goal_of(after[i]),
        prior_base(records, after[i]),
    ) == copy by {
        if i < prev.len() {
            assert(after[i] == prev[i]);
            assert(seen.contains(prev[i]));
        }
    }
}

/// How a synchronisation failed, as values: a store's message, or a refusal.
pub ghost enum SyncFailure {
    Store(Seq<char>),
    Refused(GoalSyncError),
}

pub open spec fn failure_of(error: GoalSyncError) -> SyncFailure {
    match error {
        GoalSyncError::Store(message) => SyncFailure::Store(message@),
        other => SyncFailure::Refused(other),
    }
}

/// The refusal of a Goal given as values, as `goal_error` refuses it.
pub open spec fn view_error(goal: GoalView) -> Option<GoalSyncError> {
    if is_blank(goal.objective) || vstd::utf8::encode_utf8(goal.objective).len() > MAX_OBJECTIVE_BYTES || exists|i: int|
        0 <= i < goal.objective.len() && #[trigger] goal.objective[i] == '\0' {
        Some(GoalSyncError::InvalidObjective)
    } else if goal.token_budget matches Some(budget) && budget <= 0 {
        Some(GoalSyncError::InvalidTokenBudget)
    } else {
        None
    }
}

/// How reading `thread_id` from a store fails: the store's message, then the refusal of
/// the Goal it holds.
pub open spec fn read_failure_of<S: NativeGoalStore>(store: S, thread_id: Seq<char>) -> Option<SyncFailure> {
    match store.read_failure(thread_id) {
        Some(message) => Some(SyncFailure::Store(message)),
        None => match store.goal_of(thread_id) {
            Some(goal) => match view_error(goal) {
                Some(e) => Some(SyncFailure::Refused(e)),
                None => None,
            },
            None => None,
        },
    }
}

/// How many threads ended in each way.
#[derive(Debug, Clone, PartialEq, Eq)]
pub struct NativeGoalSyncReceipt {
    pub threads: usize,
    pub unchanged: usize,
    pub copied_to_daily: usize,
    pub copied_to_isolated: usize,
    pub cleared_daily: usize,
    pub cleared_isolated: usize,
    pub conflicts: usize,
}

/// The number of threads that ended in some way.
pub open spec fn outcomes(receipt: &NativeGoalSyncReceipt) -> int {
    receipt.unchanged + receipt.copied_to_daily + receipt.copied_to_isolated + receipt.cleared_daily
        + receipt.cleared_isolated + receipt.conflicts
}

/// What a read of a store answers, given what the store returned: its failure, no Goal, or
/// the Goal once it is checked.
pub open spec fn read_outcome(answer: Result<Option<NativeGoalIntent>, String>) -> Result<
    Option<NativeGoalIntent>,
    GoalSyncError,
> {
    match answer {
        Err(message) => Err(GoalSyncError::Store(message)),
        Ok(None) => Ok(None),
        Ok(Some(goal)) => match goal_error(&goal) {
            Some(e) => Err(e),
            None => Ok(Some(goal)),
        },
    }
}

/// An error that a read of a store can answer: the store's failure, or the refusal of the
/// Goal it held.
pub open spec fn read_error(error: GoalSyncError) -> bool {
    error is Store || exists|goal: NativeGoalIntent| goal_error(&goal) == Some(error)
}

fn read_goal<S: NativeGoalStore>(store: &mut S, thread_id: &str) -> (result: Result<Option<NativeGoalIntent>, GoalSyncError>)
    ensures
        exists|answer: Result<Option<NativeGoalIntent>, String>| result == read_outcome(answer),
        result matches Ok(Some(goal)) ==> goal_error(&goal) is None,
        result matches Ok(goal) ==> opt_goal_view(goal) == old(store).goal_of(thread_id@),
        result matches Err(e) ==> read_error(e),
        match read_failure_of(*old(store), thread_id@) {
            Some(failure) => result matches Err(e) && failure_of(e) == failure,
            None => result is Ok,
        },
        forall|t: Seq<char>| #[trigger] final(store).goal_of(t) == old(store).goal_of(t),
        forall|t: Seq<char>| #[trigger] final(store).read_failure(t) == old(store).read_failure(t),
        forall|t: Seq<char>, g: Option<GoalView>| #[trigger] final(store).write_failure(t, g) == old(store).write_failure(t, g),
        final(store).writes() == old(store).writes(),
        final(store).written_threads() == old(store).written_threads(),
{
    let answer = store.get_goal(thread_id);
    let ghost seen = answer;
    let goal = match answer {
        Ok(goal) => goal,
        Err(message) => {
            proof {
                assert(Err::<Option<NativeGoalIntent>, GoalSyncError>(GoalSyncError::Store(message)) == read_outcome(seen));
            }
            return Err(GoalSyncError::Store(message));
        },
    };
    match &goal {
        Some(g) => {
            match g.validate() {
                Ok(()) => {},
                Err(e) => {
                    proof {
                        assert(read_outcome(seen) == Err::<Option<NativeGoalIntent>, GoalSyncError>(e));
                        assert(goal_error(g) == Some(e));
                    }
                    return Err(e);
                },
            }
        },
        None => {},
    }
    proof {
        assert(read_outcome(seen) == Ok::<Option<NativeGoalIntent>, GoalSyncError>(goal));
    }
    Ok(goal)
}

/// What became of writing a Goal to one side.
#[derive(Debug, Clone, PartialEq, Eq)]
pub enum ApplyGoalResult {
    Applied,
    Changed(Option<NativeGoalIntent>),
}

/// Writes `goal` to the store (or clears it) if the store still holds `expected`, and
/// counts the write.
fn apply_goal_if_unchanged<S: NativeGoalStore>(
    store: &mut S,
    thread_id: &str,
    expected: &Option<NativeGoalIntent>,
    goal: &Option<NativeGoalIntent>,
    copied: &mut usize,
    cleared: &mut usize,
) -> (result: Result<ApplyGoalResult, GoalSyncError>)
    requires
        *old(copied) < usize::MAX,
        *old(cleared) < usize::MAX,
    ensures
        match result {
            Ok(ApplyGoalResult::Applied) => {
                &&& goal is Some ==> *final(copied) == *old(copied) + 1 && *final(cleared) == *old(cleared)
                &&& goal is None ==> *final(cleared) == *old(cleared) + 1 && *final(copied) == *old(copied)
                &&& old(store).goal_of(thread_id@) == opt_goal_view(*expected)
                &&& final(store).goal_of(thread_id@) == opt_goal_view(*goal)
                &&& forall|t: Seq<char>| t != thread_id@ ==> #[trigger] final(store).goal_of(t) == old(store).goal_of(t)
                &&& final(store).writes() == old(store).writes() + 1
            },
            Ok(ApplyGoalResult::Changed(current)) => {
                &&& opt_goal_view(current) == old(store).goal_of(thread_id@)
                &&& forall|t: Seq<char>| #[trigger] final(store).goal_of(t) == old(store).goal_of(t)
                &&& opt_goal_view(current) != opt_goal_view(*expected)
                &&& current matches Some(g) ==> goal_error(&g) is None
                &&& *final(copied) == *old(copied)
                &&& *final(cleared) == *old(cleared)
                &&& final(store).writes() == old(store).writes()
            },
            Err(e) => {
                &&& read_error(e)
                &&& *final(copied) == *old(copied)
                &&& *final(cleared) == *old(cleared)
            },
        },
        read_failure_of(*old(store), thread_id@) is None && old(store).goal_of(thread_id@) == opt_goal_view(*expected)
            ==> match old(store).write_failure(thread_id@, opt_goal_view(*goal)) {
            Some(message) => result matches Err(e) && failure_of(e) == SyncFailure::Store(message),
            None => result == Ok::<ApplyGoalResult, GoalSyncError>(ApplyGoalResult::Applied),
        },
        forall|t: Seq<char>| #[trigger] final(store).read_failure(t) == old(store).read_failure(t),
        forall|t: Seq<char>, g: Option<GoalView>| #[trigger] final(store).write_failure(t, g) == old(store).write_failure(t, g),
        final(store).written_threads() == old(store).written_threads() || final(store).written_threads() == old(
            store,
        ).written_threads().push(thread_id@),
{
    let current = read_goal(store, thread_id)?;
    if !goals_equal(&current, expected) {
        return Ok(ApplyGoalResult::Changed(current));
    }
    match goal {
        Some(g) => {
            match store.set_goal(thread_id, g) {
                Ok(()) => {},
                Err(message) => {
                    return Err(GoalSyncError::Store(message));
                },
            }
            *copied = *copied + 1;
        },
        None => {
            match store.clear_goal(thread_id) {
                Ok(()) => {},
                Err(message) => {
                    return Err(GoalSyncError::Store(message));
                },
            }
            *cleared = *cleared + 1;
        },
    }
    Ok(ApplyGoalResult::Applied)
}

fn base_of(records: &Vec<(String, GoalIntentSyncRecord)>, index: Option<usize>) -> (result: Option<NativeGoalIntent>)
    requires
        index matches Some(i) ==> i < records@.len(),
    ensures
        opt_goal_view(result) == match index {
            Some(i) => opt_goal_view(records@[i as int].1.base),
            None => None,
        },
{
    match index {
        Some(i) => copy_opt_goal(&records[i].1.base),
        None => None,
    }
}

fn conflict_record(base: Option<NativeGoalIntent>, daily: Option<NativeGoalIntent>, isolated: Option<NativeGoalIntent>) -> (result: GoalIntentSyncRecord)
    ensures
        record_view(result) == (RecordView {
            base: opt_goal_view(base),
            conflict: Some((opt_goal_view(daily), opt_goal_view(isolated))),
        }),
{
    GoalIntentSyncRecord { base, conflict: Some(GoalIntentConflict { daily, isolated }) }
}

/// The base of the record of `id`, when it has one.
pub open spec fn prior_base(records: Seq<(String, GoalIntentSyncRecord)>, id: Seq<char>) -> Option<Option<GoalView>> {
    match record_at(records, id) {
        Some(record) => Some(record.base),
        None => None,
    }
}

/// The record a thread is left with: the agreed Goal as the new base, the copied Goal as
/// the new base, or, on a conflict, the prior base (none without a record) and both Goals.
pub open spec fn synced_record(
    daily: Option<GoalView>,
    isolated: Option<GoalView>,
    prior: Option<Option<GoalView>>,
) -> RecordView {
    match decision_of(daily, isolated, prior) {
        GoalSyncDecision::Unchanged => RecordView { base: daily, conflict: None },
        GoalSyncDecision::CopyToDaily => RecordView { base: isolated, conflict: None },
        GoalSyncDecision::CopyToIsolated => RecordView { base: daily, conflict: None },
        GoalSyncDecision::Conflict => RecordView {
            base: match prior {
                Some(base) => base,
                None => None,
            },
            conflict: Some((daily, isolated)),
        },
    }
}

/// What the daily app holds for a thread afterwards: the isolated Goal when it is copied
/// to daily, else what it held.
pub open spec fn daily_after(daily: Option<GoalView>, isolated: Option<GoalView>, prior: Option<Option<GoalView>>) -> Option<
    GoalView,
> {
    if decision_of(daily, isolated, prior) == GoalSyncDecision::CopyToDaily {
        isolated
    } else {
        daily
    }
}

/// What the isolated app holds for a thread afterwards: the daily Goal when it is copied
/// to isolated, else what it held.
pub open spec fn isolated_after(daily: Option<GoalView>, isolated: Option<GoalView>, prior: Option<Option<GoalView>>) -> Option<
    GoalView,
> {
    if decision_of(daily, isolated, prior) == GoalSyncDecision::CopyToIsolated {
        daily
    } else {
        isolated
    }
}

/// How a thread ended, as the receipt counts it.
pub ghost enum GoalOutcome {
    Unchanged,
    CopiedToDaily,
    ClearedDaily,
    CopiedToIsolated,
    ClearedIsolated,
    Conflict,
}

pub open spec fn outcome_of(daily: Option<GoalView>, isolated: Option<GoalView>, prior: Option<Option<GoalView>>) -> GoalOutcome {
    match decision_of(daily, isolated, prior) {
        GoalSyncDecision::Unchanged => GoalOutcome::Unchanged,
        GoalSyncDecision::CopyToDaily => if isolated is Some {
            GoalOutcome::CopiedToDaily
        } else {
            GoalOutcome::ClearedDaily
        },
        GoalSyncDecision::CopyToIsolated => if daily is Some {
            GoalOutcome::CopiedToIsolated
        } else {
            GoalOutcome::ClearedIsolated
        },
        GoalSyncDecision::Conflict => GoalOutcome::Conflict,
    }
}

/// The outcome of thread `t` from what the stores held and the records before.
pub open spec fn thread_outcome<D: NativeGoalStore, I: NativeGoalStore>(
    daily: D,
    isolated: I,
    records: Seq<(String, GoalIntentSyncRecord)>,
    t: Seq<char>,
) -> GoalOutcome {
    outcome_of(daily.goal_of(t), isolated.goal_of(t), prior_base(records, t))
}

/// How many of `ids` end in `outcome`.
pub open spec fn count_outcome<D: NativeGoalStore, I: NativeGoalStore>(
    ids: Seq<Seq<char>>,
    daily: D,
    isolated: I,
    records: Seq<(String, GoalIntentSyncRecord)>,
    outcome: GoalOutcome,
) -> nat
    decreases ids.len(),
{
    if ids.len() == 0 {
        0
    } else {
        count_outcome(ids.drop_last(), daily, isolated, records, outcome) + if thread_outcome(
            daily,
            isolated,
            records,
            ids.last(),
        ) == outcome {
            1nat
        } else {
            0nat
        }
    }
}

/// Every thread among `ids` is counted under its own outcome: a thread whose Goals
/// conflict is counted among the conflicts, one copied to the daily app among those
/// copies, and so on.
pub proof fn lemma_thread_counted<D: NativeGoalStore, I: NativeGoalStore>(
    ids: Seq<Seq<char>>,
    daily: D,
    isolated: I,
    records: Seq<(String, GoalIntentSyncRecord)>,
    t: Seq<char>,
)
    requires
        ids.contains(t),
    ensures
        count_outcome(ids, daily, isolated, records, thread_outcome(daily, isolated, records, t)) >= 1,
    decreases ids.len(),
{
    if ids.last() != t {
        let i = choose|i: int| 0 <= i < ids.len() && ids[i] == t;
        assert(ids.drop_last()[i] == t);
        lemma_thread_counted(ids.drop_last(), daily, isolated, records, t);
    }
}

/// The receipt counts the outcomes of `ids`.
pub open spec fn receipt_counts<D: NativeGoalStore, I: NativeGoalStore>(
    receipt: &NativeGoalSyncReceipt,
    ids: Seq<Seq<char>>,
    daily: D,
    isolated: I,
    records: Seq<(String, GoalIntentSyncRecord)>,
) -> bool {
    &&& receipt.unchanged == count_outcome(ids, daily, isolated, records, GoalOutcome::Unchanged)
    &&& receipt.copied_to_daily == count_outcome(ids, daily, isolated, records, GoalOutcome::CopiedToDaily)
    &&& receipt.cleared_daily == count_outcome(ids, daily, isolated, records, GoalOutcome::ClearedDaily)
    &&& receipt.copied_to_isolated == count_outcome(ids, daily, isolated, records, GoalOutcome::CopiedToIsolated)
    &&& receipt.cleared_isolated == count_outcome(ids, daily, isolated, records, GoalOutcome::ClearedIsolated)
    &&& receipt.conflicts == count_outcome(ids, daily, isolated, records, GoalOutcome::Conflict)
}

/// How synchronising thread `t` fails: reading it from the daily store, then from the
/// isolated one, then writing the copy its decision calls for.
pub open spec fn thread_failure<D: NativeGoalStore, I: NativeGoalStore>(
    daily: D,
    isolated: I,
    records: Seq<(String, GoalIntentSyncRecord)>,
    t: Seq<char>,
) -> Option<SyncFailure> {
    if read_failure_of(daily, t) is Some {
        read_failure_of(daily, t)
    } else if read_failure_of(isolated, t) is Some {
        read_failure_of(isolated, t)
    } else {
        match decision_of(daily.goal_of(t), isolated.goal_of(t), prior_base(records, t)) {
            GoalSyncDecision::CopyToDaily => match daily.write_failure(t, isolated.goal_of(t)) {
                Some(message) => Some(SyncFailure::Store(message)),
                None => None,
            },
            GoalSyncDecision::CopyToIsolated => match isolated.write_failure(t, daily.goal_of(t)) {
                Some(message) => Some(SyncFailure::Store(message)),
                None => None,
            },
            _ => None,
        }
    }
}

/// The records of the last synchronisation, as their file holds them.
#[derive(Debug, Clone, PartialEq, Eq)]
pub struct GoalIntentSyncManifest {
    pub version: u8,
    pub records: Vec<(String, GoalIntentSyncRecord)>,
}

impl GoalIntentSyncManifest {
    /// The records of a first synchronisation: none, at the current version.
    pub fn new() -> (result: Self)
        ensures
            result.version == GOAL_MANIFEST_VERSION,
            result.records@.len() == 0,
    {
        GoalIntentSyncManifest { version: GOAL_MANIFEST_VERSION, records: Vec::new() }
    }
}

/// Synchronises the Goals of each shared thread between the two stores, three-way against
/// `records`, and updates `records`. The thread ids are checked, sorted and deduplicated
/// first; refused ids touch neither store nor the records. Each thread is decided by
/// `decision_of` over the Goals the stores held and its record's base: the copied Goal is
/// written to the other store, the record is left as `synced_record` says, and the
/// receipt counts each outcome.
pub fn sync_native_goal_intents<D: NativeGoalStore, I: NativeGoalStore>(
    daily: &mut D,
    isolated: &mut I,
    thread_ids: &[String],
    manifest: &mut GoalIntentSyncManifest,
) -> (result: Result<NativeGoalSyncReceipt, GoalSyncError>)
    ensures
        final(manifest).version == old(manifest).version,
        result is Ok ==> unique_keys(final(manifest).records@),
        thread_ids_error(thread_ids@, thread_ids@.len() as int) is Some ==> result == Err::<NativeGoalSyncReceipt, GoalSyncError>(
            thread_ids_error(thread_ids@, thread_ids@.len() as int).unwrap(),
        ),
        thread_ids_error(thread_ids@, thread_ids@.len() as int) is None && manifest_error(
            old(manifest).version,
            old(manifest).records@,
        ) is Some ==> {
            &&& result == Err::<NativeGoalSyncReceipt, GoalSyncError>(
                manifest_error(old(manifest).version, old(manifest).records@).unwrap(),
            )
            &&& final(daily).requests() == old(daily).requests()
            &&& final(isolated).requests() == old(isolated).requests()
            &&& final(manifest).records@ == old(manifest).records@
        },
        result matches Err(e) ==> thread_ids_error(thread_ids@, thread_ids@.len() as int) is Some || manifest_error(
            old(manifest).version,
            old(manifest).records@,
        ) is Some || exists|t: Seq<char>|
            texts_of(thread_ids@).contains(t) && #[trigger] thread_failure(
                *old(daily),
                *old(isolated),
                old(manifest).records@,
                t,
            ) == Some(failure_of(e)),
        thread_ids_error(thread_ids@, thread_ids@.len() as int) is None && manifest_error(
            old(manifest).version,
            old(manifest).records@,
        ) is None && (forall|t: Seq<char>|
            texts_of(thread_ids@).contains(t) ==> #[trigger] thread_failure(
                *old(daily),
                *old(isolated),
                old(manifest).records@,
                t,
            ) is None) ==> result is Ok,
        thread_ids_error(thread_ids@, thread_ids@.len() as int) is Some ==> {
            &&& forall|t: Seq<char>| #[trigger] final(daily).goal_of(t) == old(daily).goal_of(t)
            &&& forall|t: Seq<char>| #[trigger] final(isolated).goal_of(t) == old(isolated).goal_of(t)
            &&& final(manifest).records@ == old(manifest).records@
        },
        thread_ids_error(thread_ids@, thread_ids@.len() as int) is Some ==> final(daily).requests() == old(
            daily,
        ).requests() && final(isolated).requests() == old(isolated).requests(),
        thread_ids_error(thread_ids@, thread_ids@.len() as int) is None && manifest_error(
            old(manifest).version,
            old(manifest).records@,
        ) is None ==> (result matches Err(e) ==> read_error(e)),
        result matches Ok(receipt) ==> final(daily).writes() == old(daily).writes() + receipt.copied_to_daily
            + receipt.cleared_daily && final(isolated).writes() == old(isolated).writes() + receipt.copied_to_isolated
            + receipt.cleared_isolated,
        result is Ok ==> thread_ids_error(thread_ids@, thread_ids@.len() as int) is None,
        result matches Ok(receipt) ==> receipt.threads == distinct_count(texts_of(thread_ids@)),
        result is Ok ==> writes_only_copies(
            old(daily).written_threads(),
            final(daily).written_threads(),
            texts_of(thread_ids@),
            *old(daily),
            *old(isolated),
            old(manifest).records@,
            GoalSyncDecision::CopyToDaily,
        ),
        result is Ok ==> writes_only_copies(
            old(isolated).written_threads(),
            final(isolated).written_threads(),
            texts_of(thread_ids@),
            *old(daily),
            *old(isolated),
            old(manifest).records@,
            GoalSyncDecision::CopyToIsolated,
        ),
        result matches Ok(receipt) ==> outcomes(&receipt) == receipt.threads,
        result is Ok ==> forall|i: int|
            0 <= i < thread_ids@.len() ==> record_at(final(manifest).records@, (#[trigger] thread_ids@[i])@) is Some,
        result is Ok ==> forall|other: Seq<char>|
            !texts_of(thread_ids@).contains(other) ==> record_at(final(manifest).records@, other) == record_at(
                old(manifest).records@,
                other,
            ),
        result matches Ok(receipt) ==> exists|ids: Seq<Seq<char>>|
            #[trigger] is_sorted_set_of(ids, texts_of(thread_ids@)) && receipt_counts(
                &receipt,
                ids,
                *old(daily),
                *old(isolated),
                old(manifest).records@,
            ),
        result is Ok ==> forall|t: Seq<char>|
            texts_of(thread_ids@).contains(t) ==> #[trigger] record_at(final(manifest).records@, t) == Some(
                synced_record(old(daily).goal_of(t), old(isolated).goal_of(t), prior_base(old(manifest).records@, t)),
            ),
        result is Ok ==> forall|t: Seq<char>| #[trigger]
            final(daily).goal_of(t) == if texts_of(thread_ids@).contains(t) {
                daily_after(old(daily).goal_of(t), old(isolated).goal_of(t), prior_base(old(manifest).records@, t))
            } else {
                old(daily).goal_of(t)
            },
        result is Ok ==> forall|t: Seq<char>| #[trigger]
            final(isolated).goal_of(t) == if texts_of(thread_ids@).contains(t) {
                isolated_after(old(daily).goal_of(t), old(isolated).goal_of(t), prior_base(old(manifest).records@, t))
            } else {
                old(isolated).goal_of(t)
            },
{
    let ids = validated_thread_ids(thread_ids)?;
    proof {
        lemma_sorted_set_count(texts_of(ids@), texts_of(thread_ids@));
        assert(thread_ids@.take(thread_ids@.len() as int) =~= thread_ids@);
        if thread_ids@.len() > 0 {
            assert(distinct_count(texts_of(thread_ids@.take(thread_ids@.len() as int))) <= MAX_SHARED_THREADS);
        } else {
            assert(texts_of(thread_ids@) =~= Seq::<Seq<char>>::empty());
            assert(texts_of(thread_ids@).to_set() =~= Set::<Seq<char>>::empty());
        }
    }
    match validate_goal_manifest(manifest.version, &manifest.records) {
        Ok(()) => {},
        Err(e) => {
            return Err(e);
        },
    }
    let mut receipt = NativeGoalSyncReceipt {
        threads: ids.len(),
        unchanged: 0,
        copied_to_daily: 0,
        copied_to_isolated: 0,
        cleared_daily: 0,
        cleared_isolated: 0,
        conflicts: 0,
    };
    let ghost original = manifest.records@;
    proof {
        assert(daily.written_threads().take(daily.written_threads().len() as int) =~= daily.written_threads());
        assert(isolated.written_threads().take(isolated.written_threads().len() as int) =~= isolated.written_threads());
        if ids@.len() > 0 {
            assert(texts_of(thread_ids@).contains(texts_of(ids@)[0]));
        }
    }
    for k in 0..ids.len()
        invariant
            thread_ids@.len() == 0 ==> ids@.len() == 0,
            is_sorted_set_of(texts_of(ids@), texts_of(thread_ids@)),
            thread_ids_error(thread_ids@, thread_ids@.len() as int) is None,
            ids@.len() <= MAX_SHARED_THREADS,
            receipt.threads == ids@.len(),
            outcomes(&receipt) == k,
            unique_keys(manifest.records@),
            original == old(manifest).records@,
            manifest_error(old(manifest).version, original) is None,
            manifest.version == old(manifest).version,
            forall|t: Seq<char>| #[trigger] daily.read_failure(t) == old(daily).read_failure(t),
            forall|t: Seq<char>, g: Option<GoalView>| #[trigger] daily.write_failure(t, g) == old(daily).write_failure(t, g),
            forall|t: Seq<char>| #[trigger] isolated.read_failure(t) == old(isolated).read_failure(t),
            forall|t: Seq<char>, g: Option<GoalView>| #[trigger] isolated.write_failure(t, g)
                == old(isolated).write_failure(t, g),
            forall|t: int| 0 <= t < k ==> record_at(manifest.records@, (#[trigger] ids@[t])@) is Some,
            forall|other: Seq<char>| !texts_of(ids@).take(k as int).contains(other) ==> record_at(manifest.records@, other)
                == record_at(original, other),
            forall|t: Seq<char>|
                texts_of(ids@).take(k as int).contains(t) ==> #[trigger] record_at(manifest.records@, t) == Some(
                    synced_record(old(daily).goal_of(t), old(isolated).goal_of(t), prior_base(original, t)),
                ),
            forall|t: Seq<char>| #[trigger]
                daily.goal_of(t) == if texts_of(ids@).take(k as int).contains(t) {
                    daily_after(old(daily).goal_of(t), old(isolated).goal_of(t), prior_base(original, t))
                } else {
                    old(daily).goal_of(t)
                },
            forall|t: Seq<char>| #[trigger]
                isolated.goal_of(t) == if texts_of(ids@).take(k as int).contains(t) {
                    isolated_after(old(daily).goal_of(t), old(isolated).goal_of(t), prior_base(original, t))
                } else {
                    old(isolated).goal_of(t)
                },
            receipt_counts(&receipt, texts_of(ids@).take(k as int), *old(daily), *old(isolated), original),
            daily.writes() == old(daily).writes() + receipt.copied_to_daily + receipt.cleared_daily,
            isolated.writes() == old(isolated).writes() + receipt.copied_to_isolated + receipt.cleared_isolated,
            writes_only_copies(
                old(daily).written_threads(),
                daily.written_threads(),
                texts_of(ids@).take(k as int),
                *old(daily),
                *old(isolated),
                original,
                GoalSyncDecision::CopyToDaily,
            ),
            writes_only_copies(
                old(isolated).written_threads(),
                isolated.written_threads(),
                texts_of(ids@).take(k as int),
                *old(daily),
                *old(isolated),
                original,
                GoalSyncDecision::CopyToIsolated,
            ),
    {
        let id = &ids[k];
        let ghost before = manifest.records@;
        let ghost tid = id@;
        let ghost seen = texts_of(ids@).take(k as int);
        let ghost next = texts_of(ids@).take(k + 1);
        proof {
            assert(texts_of(ids@)[k as int] == tid);
            assert(next =~= seen.push(tid));
            assert(next.drop_last() =~= seen);
            if seen.contains(tid) {
                let j = choose|j: int| 0 <= j < seen.len() && seen[j] == tid;
                assert(texts_of(ids@)[j] == tid);
                assert(text_lt(texts_of(ids@)[j], texts_of(ids@)[k as int]));
                lemma_text_lt_irreflexive(tid);
            }
            assert(!seen.contains(tid));
        }
        let ghost dv = old(daily).goal_of(tid);
        let ghost iv = old(isolated).goal_of(tid);
        let ghost pb = prior_base(original, tid);
        let ghost ds = *daily;
        let ghost is0 = *isolated;
        proof {
            assert(texts_of(ids@).contains(tid));
            assert(texts_of(thread_ids@).contains(tid));
            assert(read_failure_of(ds, tid) == read_failure_of(*old(daily), tid));
            assert(read_failure_of(is0, tid) == read_failure_of(*old(isolated), tid));
        }
        let daily_goal = match read_goal(daily, id.as_str()) {
            Ok(goal) => goal,
            Err(e) => {
                proof {
                    assert(thread_failure(*old(daily), *old(isolated), original, tid) == Some(failure_of(e)));
                }
                return Err(e);
            },
        };
        let isolated_goal = match read_goal(isolated, id.as_str()) {
            Ok(goal) => goal,
            Err(e) => {
                proof {
                    assert(thread_failure(*old(daily), *old(isolated), original, tid) == Some(failure_of(e)));
                }
                return Err(e);
            },
        };
        proof {
            assert(ds.goal_of(tid) == dv);
            assert(is0.goal_of(tid) == iv);
            assert(opt_goal_view(daily_goal) == dv);
            assert(opt_goal_view(isolated_goal) == iv);
        }
        let prior = find_record(&manifest.records, id);
        let decision = match prior {
            Some(i) => plan_goal_sync(&daily_goal, &isolated_goal, Some(&manifest.records[i].1)),
            None => plan_goal_sync(&daily_goal, &isolated_goal, None),
        };
        proof {
            assert(record_at(manifest.records@, tid) == record_at(original, tid));
            assert(decision == decision_of(dv, iv, pb));
        }
        let base = base_of(&manifest.records, prior);
        let ghost ds1 = *daily;
        let ghost is1 = *isolated;
        match decision {
            GoalSyncDecision::Unchanged => {
                receipt.unchanged = receipt.unchanged + 1;
                put_record(&mut manifest.records, id, GoalIntentSyncRecord { base: daily_goal, conflict: None });
            },
            GoalSyncDecision::CopyToDaily => {
                let applied = apply_goal_if_unchanged(
                    daily,
                    id.as_str(),
                    &daily_goal,
                    &isolated_goal,
                    &mut receipt.copied_to_daily,
                    &mut receipt.cleared_daily,
                );
                let applied = match applied {
                    Ok(applied) => applied,
                    Err(e) => {
                        proof {
                            assert(read_failure_of(ds1, tid) == read_failure_of(*old(daily), tid));
                            assert(thread_failure(*old(daily), *old(isolated), original, tid) == Some(failure_of(e)));
                        }
                        return Err(e);
                    },
                };
                match applied {
                    ApplyGoalResult::Applied => {
                        put_record(&mut manifest.records, id, GoalIntentSyncRecord { base: isolated_goal, conflict: None });
                    },
                    ApplyGoalResult::Changed(current) => {
                        proof {
                            assert(ds1.goal_of(tid) == dv);
                            assert(false);
                        }
                        receipt.conflicts = receipt.conflicts + 1;
                        put_record(&mut manifest.records, id, conflict_record(base, current, isolated_goal));
                    },
                }
            },
            GoalSyncDecision::CopyToIsolated => {
                let applied = apply_goal_if_unchanged(
                    isolated,
                    id.as_str(),
                    &isolated_goal,
                    &daily_goal,
                    &mut receipt.copied_to_isolated,
                    &mut receipt.cleared_isolated,
                );
                let applied = match applied {
                    Ok(applied) => applied,
                    Err(e) => {
                        proof {
                            assert(read_failure_of(is1, tid) == read_failure_of(*old(isolated), tid));
                            assert(thread_failure(*old(daily), *old(isolated), original, tid) == Some(failure_of(e)));
                        }
                        return Err(e);
                    },
                };
                match applied {
                    ApplyGoalResult::Applied => {
                        put_record(&mut manifest.records, id, GoalIntentSyncRecord { base: daily_goal, conflict: None });
                    },
                    ApplyGoalResult::Changed(current) => {
                        proof {
                            assert(is1.goal_of(tid) == iv);
                            assert(false);
                        }
                        receipt.conflicts = receipt.conflicts + 1;
                        put_record(&mut manifest.records, id, conflict_record(base, daily_goal, current));
                    },
                }
            },
            GoalSyncDecision::Conflict => {
                receipt.conflicts = receipt.conflicts + 1;
                put_record(&mut manifest.records, id, conflict_record(base, daily_goal, isolated_goal));
            },
        }
        proof {
            assert(seen.contains(tid) == false);
            assert forall|t: Seq<char>| seen.contains(t) implies next.contains(t) by {
                let j = choose|j: int| 0 <= j < seen.len() && seen[j] == t;
                assert(next[j] == t);
            }
            assert(next.contains(tid)) by {
                assert(next[k as int] == tid);
            }
            lemma_writes_step(
                old(daily).written_threads(),
                ds.written_threads(),
                daily.written_threads(),
                seen,
                next,
                tid,
                *old(daily),
                *old(isolated),
                original,
                GoalSyncDecision::CopyToDaily,
            );
            lemma_writes_step(
                old(isolated).written_threads(),
                is0.written_threads(),
                isolated.written_threads(),
                seen,
                next,
                tid,
                *old(daily),
                *old(isolated),
                original,
                GoalSyncDecision::CopyToIsolated,
            );
            assert(record_at(manifest.records@, tid) == Some(synced_record(dv, iv, pb)));
            assert(daily.goal_of(tid) == daily_after(dv, iv, pb));
            assert(isolated.goal_of(tid) == isolated_after(dv, iv, pb));
            assert(next.last() == tid);
            assert(thread_outcome(*old(daily), *old(isolated), original, tid) == outcome_of(dv, iv, pb));
            assert forall|t: Seq<char>| next.contains(t) <==> (seen.contains(t) || t == tid) by {
                if next.contains(t) {
                    let j = choose|j: int| 0 <= j < next.len() && next[j] == t;
                    if j < k {
                        assert(seen[j] == t);
                    }
                }
                if seen.contains(t) {
                    let j = choose|j: int| 0 <= j < seen.len() && seen[j] == t;
                    assert(next[j] == t);
                }
                if t == tid {
                    assert(next[k as int] == t);
                }
            }
            assert forall|t: int| 0 <= t < k + 1 implies record_at(manifest.records@, (#[trigger] ids@[t])@) is Some by {
                if t < k {
                    if ids@[t]@ != id@ {
                        assert(record_at(manifest.records@, ids@[t]@) == record_at(before, ids@[t]@));
                    }
                }
            }
            assert forall|other: Seq<char>| !next.contains(other) implies record_at(manifest.records@, other) == record_at(original, other) by {
                assert(other != tid);
            }
            assert forall|t: Seq<char>| next.contains(t) implies #[trigger] record_at(manifest.records@, t) == Some(
                synced_record(old(daily).goal_of(t), old(isolated).goal_of(t), prior_base(original, t)),
            ) by {
                if t != tid {
                    assert(record_at(manifest.records@, t) == record_at(before, t));
                    assert(seen.contains(t));
                }
            }
            assert forall|t: Seq<char>| #[trigger]
                daily.goal_of(t) == if next.contains(t) {
                    daily_after(old(daily).goal_of(t), old(isolated).goal_of(t), prior_base(original, t))
                } else {
                    old(daily).goal_of(t)
                } by {
                if t != tid {
                    assert(daily.goal_of(t) == ds.goal_of(t));
                }
            }
            assert forall|t: Seq<char>| #[trigger]
                isolated.goal_of(t) == if next.contains(t) {
                    isolated_after(old(daily).goal_of(t), old(isolated).goal_of(t), prior_base(original, t))
                } else {
                    old(isolated).goal_of(t)
                } by {
                if t != tid {
                    assert(isolated.goal_of(t) == is0.goal_of(t));
                }
            }
        }
    }
    proof {
        assert(texts_of(ids@).take(ids@.len() as int) =~= texts_of(ids@));
        assert forall|i: int| 0 <= i < thread_ids@.len() implies record_at(manifest.records@, (#[trigger] thread_ids@[i])@) is Some by {
            assert(texts_of(thread_ids@)[i] == thread_ids@[i]@);
            assert(texts_of(ids@).contains(texts_of(thread_ids@)[i]));
            let t = choose|t: int| 0 <= t < texts_of(ids@).len() && texts_of(ids@)[t] == thread_ids@[i]@;
            assert(ids@[t]@ == thread_ids@[i]@);
        }
        assert forall|t: Seq<char>| texts_of(thread_ids@).contains(t) <==> texts_of(ids@).contains(t) by {
            if texts_of(thread_ids@).contains(t) {
                let i = choose|i: int| 0 <= i < texts_of(thread_ids@).len() && texts_of(thread_ids@)[i] == t;
                assert(texts_of(ids@).contains(texts_of(thread_ids@)[i]));
            }
            if texts_of(ids@).contains(t) {
                let i = choose|i: int| 0 <= i < texts_of(ids@).len() && texts_of(ids@)[i] == t;
                assert(texts_of(thread_ids@).contains(texts_of(ids@)[i]));
            }
        }
        assert(receipt_counts(&receipt, texts_of(ids@), *old(daily), *old(isolated), old(manifest).records@));
        assert(is_sorted_set_of(texts_of(ids@), texts_of(thread_ids@)));
        assert forall|t: Seq<char>|
            texts_of(thread_ids@).contains(t) implies #[trigger] record_at(manifest.records@, t) == Some(
                synced_record(old(daily).goal_of(t), old(isolated).goal_of(t), prior_base(old(manifest).records@, t)),
            ) by {
            assert(texts_of(ids@).take(ids@.len() as int).contains(t));
        }
        assert forall|t: Seq<char>| #[trigger]
            daily.goal_of(t) == if texts_of(thread_ids@).contains(t) {
                daily_after(old(daily).goal_of(t), old(isolated).goal_of(t), prior_base(old(manifest).records@, t))
            } else {
                old(daily).goal_of(t)
            } by {
            assert(texts_of(ids@).take(ids@.len() as int).contains(t) == texts_of(thread_ids@).contains(t));
        }
        assert forall|t: Seq<char>| #[trigger]
            isolated.goal_of(t) == if texts_of(thread_ids@).contains(t) {
                isolated_after(old(daily).goal_of(t), old(isolated).goal_of(t), prior_base(old(manifest).records@, t))
            } else {
                old(isolated).goal_of(t)
            } by {
            assert(texts_of(ids@).take(ids@.len() as int).contains(t) == texts_of(thread_ids@).contains(t));
        }
        assert forall|other: Seq<char>| !texts_of(thread_ids@).contains(other) implies !texts_of(ids@).contains(other) by {
            if texts_of(ids@).contains(other) {
                let t = choose|t: int| 0 <= t < texts_of(ids@).len() && texts_of(ids@)[t] == other;
                assert(texts_of(thread_ids@).contains(texts_of(ids@)[t]));
            }
        }
    }
    Ok(receipt)
}


/// The version of the records' file.
pub const GOAL_MANIFEST_VERSION: u8 = 1;

/// The refusal of a Goal, when it is one.
pub open spec fn opt_goal_error(goal: Option<NativeGoalIntent>) -> Option<GoalSyncError> {
    match goal {
        Some(g) => goal_error(&g),
        None => None,
    }
}

/// The refusal of one loaded record: its thread id, then its base, then the two Goals of
/// its conflict.
pub open spec fn record_error(id: Seq<char>, record: GoalIntentSyncRecord) -> Option<GoalSyncError> {
    if !is_thread_id(id) {
        Some(GoalSyncError::InvalidThreadId)
    } else if opt_goal_error(record.base) is Some {
        opt_goal_error(record.base)
    } else {
        match record.conflict {
            Some(conflict) => if opt_goal_error(conflict.daily) is Some {
                opt_goal_error(conflict.daily)
            } else {
                opt_goal_error(conflict.isolated)
            },
            None => None,
        }
    }
}

/// The first refusal among the first `count` records.
pub open spec fn records_error(records: Seq<(String, GoalIntentSyncRecord)>, count: int) -> Option<GoalSyncError>
    decreases count,
{
    if count <= 0 {
        None
    } else if records_error(records, count - 1) is Some {
        records_error(records, count - 1)
    } else {
        record_error(records[count - 1].0@, records[count - 1].1)
    }
}

/// Why loaded records are refused: another version, more threads than `MAX_SHARED_THREADS`,
/// a refused record (the first, in order), or a thread recorded twice.
pub open spec fn manifest_error(version: u8, records: Seq<(String, GoalIntentSyncRecord)>) -> Option<GoalSyncError> {
    if version != GOAL_MANIFEST_VERSION {
        Some(GoalSyncError::UnsupportedManifestVersion)
    } else if records.len() > MAX_SHARED_THREADS {
        Some(GoalSyncError::TooManyThreads)
    } else if records_error(records, records.len() as int) is Some {
        records_error(records, records.len() as int)
    } else if !unique_keys(records) {
        Some(GoalSyncError::DuplicateRecord)
    } else {
        None
    }
}

fn check_goal(goal: &Option<NativeGoalIntent>) -> (result: Result<(), GoalSyncError>)
    ensures
        match result {
            Ok(()) => opt_goal_error(*goal) is None,
            Err(e) => opt_goal_error(*goal) == Some(e),
        },
{
    match goal {
        Some(g) => g.validate(),
        None => Ok(()),
    }
}

proof fn lemma_records_error_extends(records: Seq<(String, GoalIntentSyncRecord)>, count: int, total: int)
    requires
        0 <= count <= total,
        records_error(records, count) is Some,
    ensures
        records_error(records, total) == records_error(records, count),
    decreases total - count,
{
    if count < total {
        lemma_records_error_extends(records, count + 1, total);
    }
}

/// Checks the records loaded from the records' file before a synchronisation uses them;
/// accepted records have distinct thread ids.
pub fn validate_goal_manifest(version: u8, records: &Vec<(String, GoalIntentSyncRecord)>) -> (result: Result<(), GoalSyncError>)
    ensures
        match result {
            Ok(()) => manifest_error(version, records@) is None,
            Err(e) => manifest_error(version, records@) == Some(e),
        },
        result is Ok ==> unique_keys(records@),
{
    if version != GOAL_MANIFEST_VERSION {
        return Err(GoalSyncError::UnsupportedManifestVersion);
    }
    if records.len() > MAX_SHARED_THREADS {
        return Err(GoalSyncError::TooManyThreads);
    }
    for i in 0..records.len()
        invariant
            version == GOAL_MANIFEST_VERSION,
            records@.len() <= MAX_SHARED_THREADS,
            records_error(records@, i as int) is None,
    {
        let (id, record) = (&records[i].0, &records[i].1);
        let failure = if !valid_thread_id(id.as_str()) {
            Some(GoalSyncError::InvalidThreadId)
        } else {
            match check_goal(&record.base) {
                Err(e) => Some(e),
                Ok(()) => match &record.conflict {
                    Some(conflict) => match check_goal(&conflict.daily) {
                        Err(e) => Some(e),
                        Ok(()) => match check_goal(&conflict.isolated) {
                            Err(e) => Some(e),
                            Ok(()) => None,
                        },
                    },
                    None => None,
                },
            }
        };
        if let Some(e) = failure {
            proof {
                assert(records_error(records@, i + 1) == Some(e));
                lemma_records_error_extends(records@, i + 1, records@.len() as int);
            }
            return Err(e);
        }
    }
    for i in 0..records.len()
        invariant
            version == GOAL_MANIFEST_VERSION,
            records@.len() <= MAX_SHARED_THREADS,
            records_error(records@, records@.len() as int) is None,
            forall|a: int, b: int| 0 <= a < b < i ==> records@[a].0@ != records@[b].0@,
    {
        for j in 0..i
            invariant
                i < records@.len(),
                version == GOAL_MANIFEST_VERSION,
                records@.len() <= MAX_SHARED_THREADS,
                records_error(records@, records@.len() as int) is None,
                forall|a: int| 0 <= a < j ==> records@[a].0@ != records@[i as int].0@,
        {
            if text_eq(&records[j].0, &records[i].0) {
                proof {
                    assert(records@[j as int].0@ == records@[i as int].0@);
                    assert(!unique_keys(records@));
                }
                return Err(GoalSyncError::DuplicateRecord);
            }
        }
    }
    Ok(())
}

} // verus!
