use std::collections::HashMap;

use codex_administrator::goal_sync::{
    plan_goal_sync, sync_native_goal_intents, validate_goal_manifest, validated_thread_ids, GoalIntentConflict, GoalIntentSyncManifest, GoalIntentSyncRecord, GoalSyncDecision,
    GoalSyncError, GoalView, NativeGoalIntent, NativeGoalStatus, NativeGoalStore,
};

const A: &str = "0123abcd-0123-4567-89ab-0123456789ab";
const B: &str = "ffffffff-0000-4567-89ab-0123456789ab";

#[derive(Default)]
struct MemoryStore {
    goals: HashMap<String, NativeGoalIntent>,
    unreachable_reason: Option<String>,
    written: Vec<String>,
}

impl NativeGoalStore for MemoryStore {
    fn goal_of(&self, _thread_id: vstd::seq::Seq<char>) -> Option<GoalView> {
        unreachable!("a specification function, never called")
    }

    fn read_failure(&self, _thread_id: vstd::seq::Seq<char>) -> Option<vstd::seq::Seq<char>> {
        unreachable!("a specification function, never called")
    }

    fn write_failure(&self, _thread_id: vstd::seq::Seq<char>, _goal: Option<GoalView>) -> Option<vstd::seq::Seq<char>> {
        unreachable!("a specification function, never called")
    }

    fn requests(&self) -> vstd::prelude::nat {
        unreachable!("a specification function, never called")
    }

    fn writes(&self) -> vstd::prelude::nat {
        unreachable!("a specification function, never called")
    }

    fn written_threads(&self) -> vstd::seq::Seq<vstd::seq::Seq<char>> {
        unreachable!("a specification function, never called")
    }

    fn get_goal(&mut self, thread_id: &str) -> Result<Option<NativeGoalIntent>, String> {
        if let Some(reason) = &self.unreachable_reason {
            return Err(reason.clone());
        }
        Ok(self.goals.get(thread_id).cloned())
    }

    fn set_goal(&mut self, thread_id: &str, goal: &NativeGoalIntent) -> Result<(), String> {
        self.written.push(thread_id.to_string());
        self.goals.insert(thread_id.to_string(), goal.clone());
        Ok(())
    }

    fn clear_goal(&mut self, thread_id: &str) -> Result<(), String> {
        self.written.push(thread_id.to_string());
        self.goals.remove(thread_id);
        Ok(())
    }
}

fn goal(objective: &str) -> NativeGoalIntent {
    NativeGoalIntent { objective: objective.into(), status: NativeGoalStatus::Active, token_budget: Some(1000) }
}

#[test]
fn three_way_decisions_follow_the_recorded_base() {
    let base = GoalIntentSyncRecord { base: Some(goal("ship")), conflict: None };
    assert_eq!(plan_goal_sync(&Some(goal("ship")), &Some(goal("ship")), None), GoalSyncDecision::Unchanged);
    assert_eq!(plan_goal_sync(&Some(goal("ship")), &None, None), GoalSyncDecision::CopyToIsolated);
    assert_eq!(plan_goal_sync(&None, &Some(goal("ship")), None), GoalSyncDecision::CopyToDaily);
    assert_eq!(plan_goal_sync(&Some(goal("a")), &Some(goal("b")), None), GoalSyncDecision::Conflict);
    assert_eq!(plan_goal_sync(&Some(goal("ship")), &Some(goal("new")), Some(&base)), GoalSyncDecision::CopyToDaily);
    assert_eq!(plan_goal_sync(&Some(goal("new")), &Some(goal("ship")), Some(&base)), GoalSyncDecision::CopyToIsolated);
    assert_eq!(plan_goal_sync(&Some(goal("x")), &Some(goal("y")), Some(&base)), GoalSyncDecision::Conflict);
}

#[test]
fn thread_ids_are_checked_sorted_and_unique() {
    assert_eq!(
        validated_thread_ids(&[B.to_string(), A.to_string(), B.to_string()]),
        Ok(vec![A.to_string(), B.to_string()])
    );
    assert_eq!(validated_thread_ids(&["bad".to_string()]), Err(GoalSyncError::InvalidThreadId));
}

#[test]
fn goals_copy_one_way_and_record_the_new_base() {
    let mut daily = MemoryStore::default();
    let mut isolated = MemoryStore::default();
    daily.goals.insert(A.into(), goal("ship it"));
    isolated.goals.insert(B.into(), goal("review"));
    let mut manifest = GoalIntentSyncManifest::new();
    let receipt =
        sync_native_goal_intents(&mut daily, &mut isolated, &[A.to_string(), B.to_string()], &mut manifest).unwrap();
    assert_eq!(receipt.threads, 2);
    assert_eq!(receipt.copied_to_isolated, 1);
    assert_eq!(receipt.copied_to_daily, 1);
    assert_eq!(isolated.goals.get(A), Some(&goal("ship it")));
    assert_eq!(daily.goals.get(B), Some(&goal("review")));
    assert_eq!(manifest.records.len(), 2);

    daily.goals.remove(A);
    let receipt = sync_native_goal_intents(&mut daily, &mut isolated, &[A.to_string()], &mut manifest).unwrap();
    assert_eq!(receipt.cleared_isolated, 1);
    assert!(isolated.goals.get(A).is_none());
}

#[test]
fn concurrent_changes_on_both_sides_are_a_conflict() {
    let mut daily = MemoryStore::default();
    let mut isolated = MemoryStore::default();
    daily.goals.insert(A.into(), goal("one"));
    isolated.goals.insert(A.into(), goal("two"));
    let mut manifest = GoalIntentSyncManifest::new();
    let receipt = sync_native_goal_intents(&mut daily, &mut isolated, &[A.to_string()], &mut manifest).unwrap();
    assert_eq!(receipt.conflicts, 1);
    assert_eq!(daily.goals.get(A), Some(&goal("one")));
    assert_eq!(isolated.goals.get(A), Some(&goal("two")));
    assert!(manifest.records[0].1.conflict.is_some());
    assert!(daily.written.is_empty());
    assert!(isolated.written.is_empty());
}

#[test]
fn invalid_goals_are_refused() {
    assert_eq!(goal("  ").validate(), Err(GoalSyncError::InvalidObjective));
    let mut budgeted = goal("x");
    budgeted.token_budget = Some(0);
    assert_eq!(budgeted.validate(), Err(GoalSyncError::InvalidTokenBudget));
}

#[test]
fn a_later_isolated_change_flows_back_to_daily() {
    const T: &str = "019f2164-bb7b-76a1-bed5-8f7ff7f6a26e";
    let budgeted = |objective: &str| NativeGoalIntent {
        objective: objective.into(),
        status: NativeGoalStatus::Active,
        token_budget: Some(25000),
    };
    let mut daily = MemoryStore::default();
    let mut isolated = MemoryStore::default();
    daily.goals.insert(T.into(), budgeted("Daily objective"));
    let mut manifest = GoalIntentSyncManifest::new();
    let first = sync_native_goal_intents(&mut daily, &mut isolated, &[T.to_string()], &mut manifest).unwrap();
    assert_eq!(first.threads, 1);
    assert_eq!(first.copied_to_isolated, 1);
    assert_eq!(first.copied_to_daily + first.conflicts + first.unchanged, 0);
    assert_eq!(isolated.goals.get(T), Some(&budgeted("Daily objective")));
    assert_eq!(manifest.records, vec![(T.to_string(), GoalIntentSyncRecord { base: Some(budgeted("Daily objective")), conflict: None })]);

    isolated.goals.insert(T.into(), budgeted("Isolated objective"));
    let second = sync_native_goal_intents(&mut daily, &mut isolated, &[T.to_string()], &mut manifest).unwrap();
    assert_eq!(second.threads, 1);
    assert_eq!(second.copied_to_daily, 1);
    assert_eq!(second.copied_to_isolated + second.conflicts + second.unchanged, 0);
    assert_eq!(daily.goals.get(T), Some(&budgeted("Isolated objective")));
    assert_eq!(isolated.goals.get(T), Some(&budgeted("Isolated objective")));
    assert_eq!(manifest.records[0].1.base, Some(budgeted("Isolated objective")));

    let refused = sync_native_goal_intents(&mut daily, &mut isolated, &["not-a-thread".to_string()], &mut manifest);
    assert_eq!(refused, Err(GoalSyncError::InvalidThreadId));
    assert_eq!(manifest.records.len(), 1);
}

#[test]
fn loaded_records_are_checked_before_use() {
    let good = GoalIntentSyncRecord { base: Some(goal("ship")), conflict: None };
    assert_eq!(validate_goal_manifest(1, &vec![(A.to_string(), good.clone()), (B.to_string(), good.clone())]), Ok(()));
    assert_eq!(validate_goal_manifest(2, &vec![]), Err(GoalSyncError::UnsupportedManifestVersion));
    assert_eq!(validate_goal_manifest(1, &vec![("x".to_string(), good.clone())]), Err(GoalSyncError::InvalidThreadId));
    let conflicted = GoalIntentSyncRecord {
        base: None,
        conflict: Some(GoalIntentConflict { daily: Some(goal("a")), isolated: Some(goal(" ")) }),
    };
    assert_eq!(validate_goal_manifest(1, &vec![(A.to_string(), conflicted)]), Err(GoalSyncError::InvalidObjective));
    assert_eq!(
        validate_goal_manifest(1, &vec![(A.to_string(), good.clone()), (A.to_string(), good)]),
        Err(GoalSyncError::DuplicateRecord)
    );
}

#[test]
fn a_refused_manifest_reaches_neither_store() {
    let mut daily = MemoryStore::default();
    let mut isolated = MemoryStore::default();
    daily.goals.insert(A.into(), goal("ship"));
    let mut stale = GoalIntentSyncManifest { version: 2, records: Vec::new() };
    assert_eq!(
        sync_native_goal_intents(&mut daily, &mut isolated, &[A.to_string()], &mut stale),
        Err(GoalSyncError::UnsupportedManifestVersion)
    );
    assert!(isolated.goals.is_empty());
    let mut invalid = GoalIntentSyncManifest {
        version: 1,
        records: vec![(A.to_string(), GoalIntentSyncRecord { base: Some(goal(" ")), conflict: None })],
    };
    assert_eq!(
        sync_native_goal_intents(&mut daily, &mut isolated, &[A.to_string()], &mut invalid),
        Err(GoalSyncError::InvalidObjective)
    );
    assert!(isolated.goals.is_empty());
}

#[test]
fn a_store_failure_is_reported_as_it_was_answered() {
    let mut daily = MemoryStore::default();
    let mut isolated = MemoryStore { unreachable_reason: Some("app-server closed".into()), ..MemoryStore::default() };
    daily.goals.insert(A.into(), goal("ship"));
    let mut manifest = GoalIntentSyncManifest::new();
    assert_eq!(
        sync_native_goal_intents(&mut daily, &mut isolated, &[A.to_string()], &mut manifest),
        Err(GoalSyncError::Store("app-server closed".into()))
    );
}
