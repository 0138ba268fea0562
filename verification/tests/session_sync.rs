use codex_administrator::session_sync::admit_rollout;
use codex_administrator::session_sync::{
    classify_rollout_metadata, import_outcome, merge_session_indexes, orphan_outcome,
    order_rollout_candidates, parse_rfc3339_timestamp, plan_checked_rollout, plan_existing_rollout,
    prior_thread_record, private_index_entry_wins, rollout_candidate_priority, session_index_identity,
    shared_rollout, shared_session_rollouts, thread_id_from_rollout_name, validate_manifest_relative_path,
    validate_provider_id, validate_thread_id, CheckedRolloutPlan, ExistingRolloutPlan, ImportedSessionRecord,
    NativeSessionSyncReceipt, RolloutCheck, RolloutOutcome, SessionImportManifest, SessionIndexEntry,
    SessionSyncError, NativeSharedSessionRollout,
};

const THREAD: &str = "0123abcd-0123-4567-89ab-0123456789ab";
const OTHER: &str = "ffffffff-0000-4567-89ab-0123456789ab";
const DIGEST: &str = "2cf24dba5fb0a30e26e83b2ac5b9e29e1b161e5c1fa7425e73043362938b9824";

fn record(thread: &str, provider: &str) -> ImportedSessionRecord {
    ImportedSessionRecord {
        thread_id: thread.into(),
        source_len: 10,
        source_modified_seconds: 100,
        source_modified_nanos: 5,
        source_sha256: DIGEST.into(),
        destination_len: 12,
        destination_sha256: DIGEST.into(),
        provider_id: provider.into(),
    }
}

fn stable(sha: &str) -> RolloutCheck {
    RolloutCheck::Stable { len: 10, modified_seconds: 100, modified_nanos: 5, sha256: sha.into() }
}

#[test]
fn rollout_names_carry_their_thread_in_lowercase() {
    assert_eq!(
        thread_id_from_rollout_name("rollout-2025-01-02T03-04-05-0123ABCD-0123-4567-89AB-0123456789AB.jsonl"),
        Some(THREAD.to_string())
    );
    assert_eq!(thread_id_from_rollout_name(&format!("{THREAD}.jsonl")), Some(THREAD.to_string()));
    assert_eq!(thread_id_from_rollout_name(THREAD), Some(THREAD.to_string()));
    assert_eq!(thread_id_from_rollout_name("rollout-not-a-thread.jsonl"), None);
    assert_eq!(thread_id_from_rollout_name(&format!("{THREAD}x.jsonl")), None);
    assert_eq!(thread_id_from_rollout_name(".."), None);
}

#[test]
fn provider_and_thread_ids_are_checked() {
    assert_eq!(validate_provider_id("grok_native"), Ok(()));
    assert_eq!(validate_provider_id("grok-native-2"), Ok(()));
    assert_eq!(validate_provider_id(""), Err(SessionSyncError::InvalidProviderId));
    assert_eq!(validate_provider_id(" grok"), Err(SessionSyncError::InvalidProviderId));
    assert_eq!(validate_provider_id(&"a".repeat(129)), Err(SessionSyncError::InvalidProviderId));
    assert_eq!(validate_thread_id(THREAD), Ok(()));
    assert_eq!(validate_thread_id("0123abcd"), Err(SessionSyncError::InvalidThreadId));
}

#[test]
fn manifest_paths_must_be_plain_relative_paths() {
    assert_eq!(validate_manifest_relative_path("sessions/2025/a.jsonl"), Ok(()));
    assert_eq!(validate_manifest_relative_path("../a.jsonl"), Err(SessionSyncError::InvalidRelativePath));
    assert_eq!(validate_manifest_relative_path(r"C:\a.jsonl"), Err(SessionSyncError::InvalidRelativePath));
}

#[test]
fn rfc3339_timestamps_become_unix_instants() {
    assert_eq!(parse_rfc3339_timestamp("1970-01-01T00:00:00Z"), Some((0, 0)));
    assert_eq!(parse_rfc3339_timestamp("1969-12-31T23:59:59Z"), Some((-1, 0)));
    assert_eq!(parse_rfc3339_timestamp("2024-02-29T12:34:56.5+01:00"), Some((1709206496, 500_000_000)));
    assert_eq!(parse_rfc3339_timestamp("2000-03-01t00:00:00-05:30"), Some((951888600, 0)));
    assert_eq!(parse_rfc3339_timestamp("2000-03-01T00:00:00.123456789z"), Some((951868800, 123_456_789)));
    assert_eq!(parse_rfc3339_timestamp("2023-02-29T00:00:00Z"), None);
    assert_eq!(parse_rfc3339_timestamp("2024-01-01T24:00:00Z"), None);
    assert_eq!(parse_rfc3339_timestamp("2024-01-01T00:00:00.Z"), None);
    assert_eq!(parse_rfc3339_timestamp("2024-01-01T00:00:00.1234567890Z"), None);
    assert_eq!(parse_rfc3339_timestamp("2024-01-01T00:00:00+0100"), None);
    assert_eq!(parse_rfc3339_timestamp("2024-01-01 00:00:00Z"), None);
}

#[test]
fn index_entries_are_checked_and_keyed_in_lowercase() {
    assert_eq!(
        session_index_identity(&THREAD.to_uppercase(), "name", "2024-01-01T00:00:00Z"),
        Ok(THREAD.to_string())
    );
    assert_eq!(session_index_identity("x", "name", "t"), Err(SessionSyncError::InvalidThreadId));
    assert_eq!(session_index_identity(THREAD, "", "t"), Err(SessionSyncError::InvalidThreadName));
    assert_eq!(session_index_identity(THREAD, "name", "a\nb"), Err(SessionSyncError::InvalidUpdatedAt));
}

#[test]
fn the_isolated_index_entry_wins_unless_it_is_older() {
    assert!(private_index_entry_wins(None, None));
    assert!(private_index_entry_wins(Some(Some((5, 0))), Some((5, 0))));
    assert!(!private_index_entry_wins(Some(Some((5, 1))), Some((5, 0))));
    assert!(private_index_entry_wins(Some(None), Some((1, 0))));
    assert!(private_index_entry_wins(Some(None), None));
    assert!(!private_index_entry_wins(Some(Some((1, 0))), None));
}

fn entry(id: &str, updated_at: &str, value: u32) -> SessionIndexEntry<u32> {
    SessionIndexEntry::new(id, "name", updated_at, value).unwrap()
}

#[test]
fn merged_indexes_keep_the_last_daily_line_and_newer_isolated_lines_in_thread_order() {
    let daily = vec![
        entry(OTHER, "2024-01-01T00:00:00Z", 1),
        entry(THREAD, "2024-01-01T00:00:00Z", 2),
        entry(THREAD, "2024-01-03T00:00:00Z", 3),
    ];
    let private = vec![entry(THREAD, "2024-01-02T00:00:00Z", 4), entry(OTHER, "2024-01-02T00:00:00Z", 5)];
    let merged = merge_session_indexes(daily, private);
    let ids: Vec<&str> = merged.iter().map(|(id, _)| id.as_str()).collect();
    assert_eq!(ids, vec![THREAD, OTHER]);
    let values: Vec<u32> = merged.iter().map(|(_, entry)| entry.value).collect();
    assert_eq!(values, vec![3, 5]);
}

#[test]
fn candidates_come_sessions_first_then_archived_then_by_component() {
    let keys = vec![
        "other/a.jsonl".to_string(),
        "archived_sessions/b.jsonl".to_string(),
        "sessions/z.jsonl".to_string(),
        "sessions/a-c.jsonl".to_string(),
        "sessions/a/b.jsonl".to_string(),
    ];
    assert_eq!(
        order_rollout_candidates(keys),
        vec![
            "sessions/a/b.jsonl",
            "sessions/a-c.jsonl",
            "sessions/z.jsonl",
            "archived_sessions/b.jsonl",
            "other/a.jsonl",
        ]
    );
    assert_eq!(rollout_candidate_priority(Some("sessions")), 0);
    assert_eq!(rollout_candidate_priority(Some("archived_sessions")), 1);
    assert_eq!(rollout_candidate_priority(None), 2);
}

#[test]
fn existing_snapshots_are_kept_recovered_or_reimported() {
    let r = record(THREAD, "grok_native");
    assert_eq!(
        plan_existing_rollout(Some(&r), THREAD, "grok_native", &RolloutCheck::Active),
        ExistingRolloutPlan::SkipActive
    );
    assert_eq!(
        plan_existing_rollout(None, THREAD, "grok_native", &stable(DIGEST)),
        ExistingRolloutPlan::RecoverOrphan
    );
    assert_eq!(
        plan_existing_rollout(Some(&r), THREAD, "other", &stable(DIGEST)),
        ExistingRolloutPlan::Conflict
    );
    assert_eq!(
        plan_existing_rollout(Some(&r), THREAD, "grok_native", &stable(DIGEST)),
        ExistingRolloutPlan::CheckDestination
    );
    assert_eq!(plan_checked_rollout(&r, &stable(DIGEST), Some(true)), CheckedRolloutPlan::Keep);
    assert_eq!(plan_checked_rollout(&r, &stable(DIGEST), Some(false)), CheckedRolloutPlan::RecoverOrphan);
    assert_eq!(plan_checked_rollout(&r, &stable("00"), Some(true)), CheckedRolloutPlan::Import);
    assert_eq!(plan_checked_rollout(&r, &stable(DIGEST), None), CheckedRolloutPlan::Conflict);
    assert_eq!(classify_rollout_metadata(true, false, 0, 1), Some(RolloutCheck::Invalid));
    assert_eq!(classify_rollout_metadata(true, false, 10, 1), None);
    assert_eq!(classify_rollout_metadata(true, false, 10, 2), Some(RolloutCheck::Invalid));
}

#[test]
fn outcomes_are_counted_once_each() {
    assert_eq!(import_outcome(false, false), RolloutOutcome::Imported);
    assert_eq!(import_outcome(true, false), RolloutOutcome::Updated);
    assert_eq!(orphan_outcome(false), RolloutOutcome::Unchanged);
    let mut receipt = NativeSessionSyncReceipt::new();
    receipt.count(RolloutOutcome::Imported);
    receipt.count(RolloutOutcome::Conflict);
    receipt.count(RolloutOutcome::Conflict);
    assert_eq!((receipt.imported, receipt.conflicts, receipt.updated), (1, 2, 0));
}

#[test]
fn a_moved_thread_supersedes_its_least_other_record() {
    let mut manifest = SessionImportManifest::empty();
    manifest.files.insert("sessions/b.jsonl".into(), record(THREAD, "grok_native"));
    manifest.files.insert("sessions/a.jsonl".into(), record(THREAD, "grok_native"));
    manifest.files.insert("sessions/c.jsonl".into(), record(THREAD, "other"));
    manifest.files.insert("sessions/d.jsonl".into(), record(OTHER, "grok_native"));
    assert_eq!(
        prior_thread_record(&manifest, "archived_sessions/x.jsonl", THREAD, "grok_native"),
        Some("sessions/a.jsonl".to_string())
    );
    assert_eq!(
        prior_thread_record(&manifest, "sessions/a.jsonl", THREAD, "grok_native"),
        Some("sessions/b.jsonl".to_string())
    );
    assert_eq!(prior_thread_record(&manifest, "x", OTHER, "other"), None);
}

#[test]
fn shared_rollouts_follow_their_manifest_in_thread_order() {
    let mut manifest = SessionImportManifest::empty();
    let first = format!("sessions/rollout-{OTHER}.jsonl");
    let second = format!("sessions/rollout-{THREAD}.jsonl");
    manifest.files.insert(first.clone(), record(OTHER, "grok_native"));
    manifest.files.insert(second.clone(), record(THREAD, "grok_native"));
    assert_eq!(
        shared_session_rollouts(&manifest),
        Ok(vec![
            NativeSharedSessionRollout { thread_id: THREAD.into(), key: second.clone() },
            NativeSharedSessionRollout { thread_id: OTHER.into(), key: first },
        ])
    );
    assert_eq!(
        shared_rollout("sessions/rollout-x.jsonl", &record(THREAD, "grok_native")),
        Err(SessionSyncError::InvalidThreadId)
    );
    manifest.files.insert("../escape.jsonl".into(), record(THREAD, "grok_native"));
    assert_eq!(shared_session_rollouts(&manifest), Err(SessionSyncError::InvalidRelativePath));
}

#[test]
fn the_first_rollout_of_a_thread_wins() {
    let mut seen: Vec<String> = Vec::new();
    let thread = Some("019f2164-bb7b-76a1-bed5-8f7ff7f6a26e".to_string());
    assert!(admit_rollout(&mut seen, &thread, true));
    assert!(!admit_rollout(&mut seen, &thread, true));
    assert!(!admit_rollout(&mut seen, &None, true));
    let other = Some("019f2164-bb7b-76a1-bed5-8f7ff7f6a26f".to_string());
    assert!(!admit_rollout(&mut seen, &other, false));
    assert_eq!(seen, vec!["019f2164-bb7b-76a1-bed5-8f7ff7f6a26e".to_string()]);
    assert!(admit_rollout(&mut seen, &other, true));
    assert_eq!(seen.len(), 2);
}
